use vstd::prelude::*;

use crate::align::{HorizontalAlignment, VerticalAlignment};
use crate::cell::Cell;
use crate::color::Color;
use crate::rect::Rectangle;
use crate::terminal::Terminal;
use vstd::string::StrSliceExecFns;

verus! {

/// The length in characters of the longest string of `items`, zero when
/// there are none.
pub open spec fn max_item_len(items: Seq<String>) -> int
    decreases items.len(),
{
    if items.len() == 0 {
        0
    } else {
        let rest = max_item_len(items.drop_last());
        let last = items.last()@.len() as int;
        if last > rest {
            last
        } else {
            rest
        }
    }
}

pub proof fn lemma_max_item_len(items: Seq<String>)
    ensures
        forall|i: int| 0 <= i < items.len() ==> #[trigger] items[i]@.len() <= max_item_len(items),
        max_item_len(items) >= 0,
        items.len() > 0 ==> exists|i: int|
            0 <= i < items.len() && max_item_len(items) == #[trigger] items[i]@.len(),
    decreases items.len(),
{
    if items.len() > 0 {
        lemma_max_item_len(items.drop_last());
        assert forall|i: int| 0 <= i < items.len() implies #[trigger] items[i]@.len()
            <= max_item_len(items) by {
            if i < items.len() - 1 {
                assert(items.drop_last()[i] == items[i]);
            }
        }
        if max_item_len(items) == items.last()@.len() {
            assert(items[items.len() - 1]@.len() == max_item_len(items));
        } else {
            let j = choose|j: int|
                0 <= j < items.drop_last().len() && max_item_len(items.drop_last())
                    == #[trigger] items.drop_last()[j]@.len();
            assert(items[j]@.len() == max_item_len(items));
        }
    }
}

/// A widget that draws an ordered list of strings inside its region's
/// frame, one row per item, all sharing one block alignment, with an
/// optional highlighted row.
pub struct ItemList {
    pub items: Vec<String>,
    pub vertical_alignment: VerticalAlignment,
    pub horizontal_alignment: HorizontalAlignment,
    pub area: Rectangle,
    pub selected_row: Option<usize>,
}

impl ItemList {
    /// The construction contract: every item fits the interior width
    /// strictly, the item count fits the interior height, and any selected
    /// row exists.
    pub open spec fn wf(self) -> bool {
        &&& self.area.wf()
        &&& self.area.height >= 2
        &&& self.items@.len() <= self.area.height - 2
        &&& forall|i: int|
            0 <= i < self.items@.len() ==> #[trigger] self.items@[i]@.len() + 2 < self.area.width
        &&& (match self.selected_row {
            Some(r) => r < self.items@.len(),
            None => true,
        })
    }

    /// The local row of the first item.
    pub open spec fn vertical_start(self) -> int {
        match self.vertical_alignment {
            VerticalAlignment::Top => 1,
            VerticalAlignment::Bottom => self.area.height - self.items@.len() - 1,
            VerticalAlignment::Center => (self.area.height - self.items@.len()) / 2,
        }
    }

    /// The local column where the item block starts; every item shares it.
    pub open spec fn horizontal_start(self) -> int {
        match self.horizontal_alignment {
            HorizontalAlignment::Left => 1,
            HorizontalAlignment::Right => self.area.width - max_item_len(self.items@) - 1,
            HorizontalAlignment::Center => (self.area.width - max_item_len(self.items@)) / 2,
        }
    }

    /// Screen position `(gx, gy)` lies on the highlighted row: the list is
    /// non-empty, a row is selected, and the column is interior.
    pub open spec fn selection_covers(self, gx: int, gy: int) -> bool {
        &&& self.items@.len() > 0
        &&& (match self.selected_row {
            Some(r) => gy == self.area.y + self.vertical_start() + r,
            None => false,
        })
        &&& self.area.x + 1 <= gx <= self.area.x + self.area.width - 2
    }

    /// Screen position `(gx, gy)` shows a character of one of the first
    /// `upto` items.
    pub open spec fn content_covers_upto(self, gx: int, gy: int, upto: int) -> bool {
        let l = gy - self.area.y - self.vertical_start();
        &&& 0 <= l < upto
        &&& l < self.items@.len()
        &&& {
            let x0 = self.horizontal_start();
            self.area.x + x0 <= gx < self.area.x + x0 + self.items@[l]@.len()
        }
    }

    /// Screen position `(gx, gy)` shows a character of some item.
    pub open spec fn content_covers(self, gx: int, gy: int) -> bool {
        self.content_covers_upto(gx, gy, self.items@.len() as int)
    }

    /// The frame and highlight passes together: the region's frame and
    /// title, with the highlight colors painted over the whole interior of
    /// the selected row.
    pub open spec fn pre_content_cell(self, prev: Cell, gx: int, gy: int) -> Cell {
        let base = self.area.rendered_cell(prev, gx, gy);
        if self.selection_covers(gx, gy) {
            Cell {
                character: base.character,
                foreground_color: Color::Black,
                background_color: Color::Cyan,
            }
        } else {
            base
        }
    }

    /// What rendering the widget leaves at screen position `(gx, gy)`:
    /// frame, then highlight, then the item glyphs written over both.
    pub open spec fn rendered_cell(self, prev: Cell, gx: int, gy: int) -> Cell {
        let base = self.pre_content_cell(prev, gx, gy);
        if self.content_covers(gx, gy) {
            let l = gy - self.area.y - self.vertical_start();
            Cell {
                character: self.items@[l]@[gx - self.area.x - self.horizontal_start()],
                foreground_color: base.foreground_color,
                background_color: base.background_color,
            }
        } else {
            base
        }
    }

    /// Builds the widget over `area`. The items must fit: their count in
    /// the interior height, each one strictly inside the interior width.
    pub fn new(
        items: Vec<String>,
        vertical_alignment: VerticalAlignment,
        horizontal_alignment: HorizontalAlignment,
        area: Rectangle,
    ) -> (r: ItemList)
        requires
            area.wf(),
            area.height >= 2,
            items@.len() + 2 <= area.height,
            forall|i: int| 0 <= i < items@.len() ==> #[trigger] items@[i]@.len() + 2 < area.width,
        ensures
            r == (ItemList {
                items,
                vertical_alignment,
                horizontal_alignment,
                area,
                selected_row: None,
            }),
            r.wf(),
    {
        ItemList { items, vertical_alignment, horizontal_alignment, area, selected_row: None }
    }

    /// Selects the row to highlight, or clears the selection. A selected
    /// index must name an existing item.
    pub fn set_selected(&mut self, item_index: Option<usize>)
        requires
            (match item_index {
                Some(i) => i < old(self).items@.len(),
                None => true,
            }),
        ensures
            *final(self) == (ItemList { selected_row: item_index, ..*old(self) }),
    {
        self.selected_row = item_index;
    }

    pub fn width(&self) -> (r: usize)
        ensures
            r == self.area.width,
    {
        self.area.width
    }

    pub fn height(&self) -> (r: usize)
        ensures
            r == self.area.height,
    {
        self.area.height
    }

    pub fn set_border_color(&mut self, color: Color)
        ensures
            *final(self) == (ItemList {
                area: (Rectangle { border_color: color, ..old(self).area }),
                ..*old(self)
            }),
    {
        self.area.set_border_color(color);
    }

    pub fn set_title(&mut self, title: Option<String>)
        requires
            (match title {
                Some(t) => t@.len() + 2 <= old(self).area.width,
                None => true,
            }),
        ensures
            *final(self) == (ItemList {
                area: (Rectangle { title, ..old(self).area }),
                ..*old(self)
            }),
    {
        self.area.set_title(title);
    }

    /// Draws the frame, paints the whole interior of the selected row in
    /// the highlight colors, then writes the items; item glyphs change only
    /// the character of a cell, so the highlight spans the full interior
    /// width whatever the item's own length.
    pub fn render(&self, terminal: &mut Terminal)
        requires
            old(terminal).wf(),
            self.wf(),
            self.area.fits(*old(terminal)),
        ensures
            final(terminal).wf(),
            final(terminal).same_size(*old(terminal)),
            forall|gx: int, gy: int|
                old(terminal).in_range(gx, gy) ==> final(terminal).spec_cell(gx, gy)
                    == self.rendered_cell(old(terminal).spec_cell(gx, gy), gx, gy),
            forall|lx: int|
                self.items@.len() > 0 && self.selected_row is Some && 1 <= lx <= self.area.width - 2
                    ==> #[trigger] final(terminal).spec_cell(
                    self.area.x + lx,
                    self.area.y + self.vertical_start() + self.selected_row->Some_0,
                ).background_color == Color::Cyan && final(terminal).spec_cell(
                    self.area.x + lx,
                    self.area.y + self.vertical_start() + self.selected_row->Some_0,
                ).foreground_color == Color::Black,
    {
        let ghost t0 = *terminal;
        self.area.render(terminal);
        if self.items.len() == 0 {
            return ;
        }
        proof {
            lemma_max_item_len(self.items@);
        }
        let n = self.items.len();
        let y0 = match self.vertical_alignment {
            VerticalAlignment::Top => 1,
            VerticalAlignment::Bottom => self.area.height - n - 1,
            VerticalAlignment::Center => (self.area.height - n) / 2,
        };
        let mut m: usize = 0;
        let mut i: usize = 0;
        while i < n
            invariant
                self.wf(),
                n == self.items@.len(),
                i <= n,
                m == max_item_len(self.items@.take(i as int)),
            decreases n - i,
        {
            let len = self.items[i].as_str().unicode_len();
            proof {
                assert(self.items@.take(i + 1).drop_last() =~= self.items@.take(i as int));
                assert(self.items@.take(i + 1).last() == self.items@[i as int]);
            }
            if len > m {
                m = len;
            }
            i = i + 1;
        }
        proof {
            assert(self.items@.take(n as int) =~= self.items@);
            assert(m == max_item_len(self.items@));
            assert(m + 2 < self.area.width);
        }
        let x0 = match self.horizontal_alignment {
            HorizontalAlignment::Left => 1,
            HorizontalAlignment::Right => self.area.width - m - 1,
            HorizontalAlignment::Center => (self.area.width - m) / 2,
        };
        proof {
            assert(y0 == self.vertical_start());
            assert(x0 == self.horizontal_start());
            assert(1 <= y0 && y0 + n <= self.area.height - 1);
            assert(1 <= x0 && x0 + m <= self.area.width - 1);
        }
        if let Some(selected_row) = self.selected_row {
            let gy = self.area.y + y0 + selected_row;
            let mut lx: usize = 1;
            while lx < self.area.width - 1
                invariant
                    terminal.wf(),
                    terminal.same_size(t0),
                    t0.wf(),
                    self.wf(),
                    self.area.fits(t0),
                    self.items@.len() > 0,
                    self.selected_row matches Some(r) && r == selected_row,
                    y0 == self.vertical_start(),
                    gy == self.area.y + y0 + selected_row,
                    1 <= lx <= self.area.width - 1,
                    1 <= y0 && y0 + self.items@.len() <= self.area.height - 1,
                    forall|gx2: int, gy2: int|
                        t0.in_range(gx2, gy2) ==> terminal.spec_cell(gx2, gy2) == (if self.selection_covers(
                            gx2,
                            gy2,
                        ) && gx2 < self.area.x + lx {
                            self.pre_content_cell(t0.spec_cell(gx2, gy2), gx2, gy2)
                        } else {
                            self.area.rendered_cell(t0.spec_cell(gx2, gy2), gx2, gy2)
                        }),
                decreases self.area.width - 1 - lx,
            {
                let gx = self.area.x + lx;
                let mut cell = terminal.cell_at(gx, gy);
                cell.foreground_color = Color::Black;
                cell.background_color = Color::Cyan;
                terminal.put_cell(gx, gy, cell);
                lx = lx + 1;
            }
        }
        proof {
            assert forall|gx2: int, gy2: int| t0.in_range(gx2, gy2) implies terminal.spec_cell(
                gx2,
                gy2,
            ) == self.pre_content_cell(t0.spec_cell(gx2, gy2), gx2, gy2) by {}
        }
        let mut l: usize = 0;
        while l < n
            invariant
                terminal.wf(),
                terminal.same_size(t0),
                t0.wf(),
                self.wf(),
                self.area.fits(t0),
                n == self.items@.len(),
                n > 0,
                y0 == self.vertical_start(),
                x0 == self.horizontal_start(),
                1 <= y0 && y0 + n <= self.area.height - 1,
                1 <= x0 && x0 + max_item_len(self.items@) <= self.area.width - 1,
                l <= n,
                forall|gx2: int, gy2: int|
                    t0.in_range(gx2, gy2) ==> terminal.spec_cell(gx2, gy2) == (if self.content_covers_upto(
                        gx2,
                        gy2,
                        l as int,
                    ) {
                        self.rendered_cell(t0.spec_cell(gx2, gy2), gx2, gy2)
                    } else {
                        self.pre_content_cell(t0.spec_cell(gx2, gy2), gx2, gy2)
                    }),
            decreases n - l,
        {
            proof {
                lemma_max_item_len(self.items@);
            }
            let item_len = self.items[l].as_str().unicode_len();
            let gy = self.area.y + y0 + l;
            let mut k: usize = 0;
            while k < item_len
                invariant
                    terminal.wf(),
                    terminal.same_size(t0),
                    t0.wf(),
                    self.wf(),
                    self.area.fits(t0),
                    n == self.items@.len(),
                    l < n,
                    item_len == self.items@[l as int]@.len(),
                    y0 == self.vertical_start(),
                    x0 == self.horizontal_start(),
                    1 <= y0 && y0 + n <= self.area.height - 1,
                    1 <= x0 && x0 + item_len <= self.area.width - 1,
                    gy == self.area.y + y0 + l,
                    k <= item_len,
                    forall|gx2: int, gy2: int|
                        t0.in_range(gx2, gy2) ==> terminal.spec_cell(gx2, gy2) == (if self.content_covers_upto(
                            gx2,
                            gy2,
                            l as int,
                        ) || (gy2 == gy && self.area.x + x0 <= gx2 < self.area.x + x0 + k) {
                            self.rendered_cell(t0.spec_cell(gx2, gy2), gx2, gy2)
                        } else {
                            self.pre_content_cell(t0.spec_cell(gx2, gy2), gx2, gy2)
                        }),
                decreases item_len - k,
            {
                let gx = self.area.x + x0 + k;
                let c = self.items[l].as_str().get_char(k);
                let mut cell = terminal.cell_at(gx, gy);
                cell.character = c;
                terminal.put_cell(gx, gy, cell);
                k = k + 1;
            }
            l = l + 1;
        }
        proof {
            assert forall|gx2: int, gy2: int| t0.in_range(gx2, gy2) implies terminal.spec_cell(
                gx2,
                gy2,
            ) == self.rendered_cell(t0.spec_cell(gx2, gy2), gx2, gy2) by {}
            if self.selected_row is Some {
                let sel = self.selected_row->Some_0;
                assert forall|lx: int| 1 <= lx <= self.area.width - 2 implies #[trigger] terminal.spec_cell(
                    self.area.x + lx,
                    self.area.y + self.vertical_start() + sel,
                ).background_color == Color::Cyan && terminal.spec_cell(
                    self.area.x + lx,
                    self.area.y + self.vertical_start() + sel,
                ).foreground_color == Color::Black by {
                    let gx = self.area.x + lx;
                    let gy = self.area.y + self.vertical_start() + sel;
                    assert(t0.in_range(gx, gy));
                    assert(self.selection_covers(gx, gy));
                }
            }
        }
    }
}

impl Rectangle {
    /// Consumes the rectangle and attaches a list of items to it.
    pub fn item_list(
        self,
        items: Vec<String>,
        vertical_alignment: VerticalAlignment,
        horizontal_alignment: HorizontalAlignment,
    ) -> (r: ItemList)
        requires
            self.wf(),
            self.height >= 2,
            items@.len() + 2 <= self.height,
            forall|i: int| 0 <= i < items@.len() ==> #[trigger] items@[i]@.len() + 2 < self.width,
        ensures
            r == (ItemList {
                items,
                vertical_alignment,
                horizontal_alignment,
                area: self,
                selected_row: None,
            }),
            r.wf(),
    {
        ItemList::new(items, vertical_alignment, horizontal_alignment, self)
    }
}

} // verus!
