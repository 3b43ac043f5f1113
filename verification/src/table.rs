use vstd::prelude::*;

use crate::align::{HorizontalAlignment, VerticalAlignment};
use crate::cell::Cell;
use crate::color::Color;
use crate::rect::Rectangle;
use crate::terminal::Terminal;
use vstd::string::StrSliceExecFns;

verus! {

/// The widest row of `rows`, counted in columns.
pub open spec fn max_row_width(rows: Seq<Vec<String>>) -> int
    decreases rows.len(),
{
    if rows.len() == 0 {
        0
    } else {
        let rest = max_row_width(rows.drop_last());
        let last = rows.last()@.len() as int;
        if last > rest {
            last
        } else {
            rest
        }
    }
}

/// The width of column `c`: the longest entry at position `c` over all
/// rows, zero for rows that have no such column.
pub open spec fn col_len(rows: Seq<Vec<String>>, c: int) -> int
    decreases rows.len(),
{
    if rows.len() == 0 {
        0
    } else {
        let rest = col_len(rows.drop_last(), c);
        let last = if 0 <= c < rows.last()@.len() {
            rows.last()@[c]@.len() as int
        } else {
            0
        };
        if last > rest {
            last
        } else {
            rest
        }
    }
}

pub proof fn lemma_max_row_width(rows: Seq<Vec<String>>)
    ensures
        max_row_width(rows) >= 0,
        forall|i: int| 0 <= i < rows.len() ==> #[trigger] rows[i]@.len() <= max_row_width(rows),
    decreases rows.len(),
{
    if rows.len() > 0 {
        lemma_max_row_width(rows.drop_last());
        assert forall|i: int| 0 <= i < rows.len() implies #[trigger] rows[i]@.len()
            <= max_row_width(rows) by {
            if i < rows.len() - 1 {
                assert(rows.drop_last()[i] == rows[i]);
            }
        }
    }
}

pub proof fn lemma_col_len_nonneg(rows: Seq<Vec<String>>, c: int)
    ensures
        col_len(rows, c) >= 0,
    decreases rows.len(),
{
    if rows.len() > 0 {
        lemma_col_len_nonneg(rows.drop_last(), c);
    }
}

/// Every entry of column `c` fits inside the column's width.
pub proof fn lemma_col_len_bound(rows: Seq<Vec<String>>, i: int, c: int)
    requires
        0 <= i < rows.len(),
        0 <= c < rows[i]@.len(),
    ensures
        rows[i]@[c]@.len() <= col_len(rows, c),
    decreases rows.len(),
{
    if i == rows.len() - 1 {
        assert(rows.last() == rows[i]);
    } else {
        lemma_col_len_bound(rows.drop_last(), i, c);
        assert(rows.drop_last()[i] == rows[i]);
    }
}

/// The sum of the first `c` entries of `cols`.
pub open spec fn prefix_sum(cols: Seq<usize>, c: int) -> int
    decreases c,
{
    if c <= 0 {
        0
    } else {
        prefix_sum(cols, c - 1) + cols[c - 1]
    }
}

pub proof fn lemma_prefix_sum_mono(cols: Seq<usize>, a: int, b: int)
    requires
        0 <= a <= b <= cols.len(),
    ensures
        prefix_sum(cols, a) <= prefix_sum(cols, b),
    decreases b - a,
{
    if a < b {
        lemma_prefix_sum_mono(cols, a, b - 1);
    }
}

/// Where column `c` starts inside the content block: the widths of the
/// earlier columns plus one gap column before each column after the first.
pub open spec fn col_start(cols: Seq<usize>, c: int) -> int {
    prefix_sum(cols, c) + c
}

/// The sum of the ideal widths of the first `c` columns of `rows`.
pub open spec fn cols_total(rows: Seq<Vec<String>>, c: int) -> int
    decreases c,
{
    if c <= 0 {
        0
    } else {
        cols_total(rows, c - 1) + col_len(rows, c - 1)
    }
}

/// The width of the whole content block of `rows`: all column widths plus
/// the inter-column gaps.
pub open spec fn spec_block_width(rows: Seq<Vec<String>>) -> int {
    let nc = max_row_width(rows);
    if nc == 0 {
        0
    } else {
        cols_total(rows, nc) + nc - 1
    }
}

/// When `cols` holds exactly the per-column widths of `rows`, its prefix
/// sums agree with the ideal ones.
pub proof fn lemma_prefix_sum_equal(cols: Seq<usize>, rows: Seq<Vec<String>>, c: int)
    requires
        0 <= c <= cols.len(),
        forall|j: int| 0 <= j < cols.len() ==> #[trigger] cols[j] == col_len(rows, j),
    ensures
        prefix_sum(cols, c) == cols_total(rows, c),
    decreases c,
{
    if c > 0 {
        lemma_prefix_sum_equal(cols, rows, c - 1);
    }
}

/// A widget that draws a grid of strings inside its region's frame, one
/// row of the grid per screen row, columns aligned to the widest entry of
/// each column with a one-cell gap between columns, with an optional
/// highlighted row. Entries are not padded to the column width.
pub struct Table {
    pub items: Vec<Vec<String>>,
    pub vertical_alignment: VerticalAlignment,
    pub horizontal_alignment: HorizontalAlignment,
    pub area: Rectangle,
    pub column_lengths: Vec<usize>,
    pub selected_row: Option<usize>,
}

impl Table {
    /// The construction contract: at least one row, rows fit the interior
    /// height, the cached column widths are the per-column maxima, the
    /// whole block (gaps included) fits strictly inside the interior
    /// width, and any selected row exists.
    pub open spec fn wf(self) -> bool {
        &&& self.area.wf()
        &&& self.items@.len() >= 1
        &&& self.items@.len() + 2 <= self.area.height
        &&& self.column_lengths@.len() == max_row_width(self.items@)
        &&& forall|c: int|
            0 <= c < self.column_lengths@.len() ==> #[trigger] self.column_lengths@[c] == col_len(
                self.items@,
                c,
            )
        &&& self.block_width() + 2 < self.area.width
        &&& (match self.selected_row {
            Some(r) => r < self.items@.len(),
            None => true,
        })
    }

    /// The width of the content block, computed over the cached widths.
    pub open spec fn block_width(self) -> int {
        let nc = self.column_lengths@.len() as int;
        if nc == 0 {
            0
        } else {
            prefix_sum(self.column_lengths@, nc) + nc - 1
        }
    }

    /// The local row of the first grid row.
    pub open spec fn vertical_start(self) -> int {
        match self.vertical_alignment {
            VerticalAlignment::Top => 1,
            VerticalAlignment::Bottom => self.area.height - self.items@.len() - 1,
            VerticalAlignment::Center => (self.area.height - self.items@.len()) / 2,
        }
    }

    /// The local column where the content block starts: just inside the
    /// border for Left, flush against the right border for Right, half the
    /// slack for Center, all keyed on the block width (column widths plus
    /// gaps). The block fits the interior strictly, so the start always
    /// lies inside it.
    pub open spec fn horizontal_start(self) -> int {
        let b = self.block_width();
        match self.horizontal_alignment {
            HorizontalAlignment::Left => 1,
            HorizontalAlignment::Right => self.area.width - 1 - b,
            HorizontalAlignment::Center => (self.area.width - b) / 2,
        }
    }

    /// Character `k` of the entry at row `i`, column `c` is drawn at screen
    /// position `(gx, gy)`.
    pub open spec fn cell_target(self, i: int, c: int, k: int, gx: int, gy: int) -> bool {
        &&& 0 <= i < self.items@.len()
        &&& 0 <= c < self.items@[i]@.len()
        &&& 0 <= k < self.items@[i]@[c]@.len()
        &&& gy == self.area.y + self.vertical_start() + i
        &&& gx == self.area.x + self.horizontal_start() + col_start(self.column_lengths@, c) + k
    }

    /// Some entry character strictly before position `(ri, rc, rk)` in
    /// row-major drawing order is drawn at `(gx, gy)`.
    pub open spec fn target_before(self, gx: int, gy: int, ri: int, rc: int, rk: int) -> bool {
        exists|i: int, c: int, k: int|
            self.cell_target(i, c, k, gx, gy) && (i < ri || (i == ri && (c < rc || (c == rc && k
                < rk))))
    }

    /// Some entry character is drawn at `(gx, gy)`.
    pub open spec fn content_covers(self, gx: int, gy: int) -> bool {
        exists|i: int, c: int, k: int| self.cell_target(i, c, k, gx, gy)
    }

    /// The entry character drawn at `(gx, gy)`.
    pub open spec fn content_char(self, gx: int, gy: int) -> char {
        let (i, c, k) = choose|i: int, c: int, k: int| self.cell_target(i, c, k, gx, gy);
        self.items@[i]@[c]@[k]
    }

    /// Screen position `(gx, gy)` lies on the highlighted row.
    pub open spec fn selection_covers(self, gx: int, gy: int) -> bool {
        &&& (match self.selected_row {
            Some(r) => gy == self.area.y + self.vertical_start() + r,
            None => false,
        })
        &&& self.area.x + 1 <= gx <= self.area.x + self.area.width - 2
    }

    /// The frame and highlight passes together.
    pub open spec fn pre_content_cell(self, prev: Cell, gx: int, gy: int) -> Cell {
        let base = self.area.rendered_cell(prev, gx, gy);
        if self.selection_covers(gx, gy) {
            Cell {
                character: base.character,
                foreground_color: Color::Black,
                background_color: Color::Cyan,
            }
        } else {
            base
        }
    }

    /// What rendering the widget leaves at screen position `(gx, gy)`:
    /// frame, then highlight, then the entry glyphs written over both.
    pub open spec fn rendered_cell(self, prev: Cell, gx: int, gy: int) -> Cell {
        let base = self.pre_content_cell(prev, gx, gy);
        if self.content_covers(gx, gy) {
            Cell {
                character: self.content_char(gx, gy),
                foreground_color: base.foreground_color,
                background_color: base.background_color,
            }
        } else {
            base
        }
    }

    /// Two drawing-order positions never target the same screen cell:
    /// rows live on distinct screen rows, and inside a row the column
    /// spans are disjoint because every entry fits its column.
    pub proof fn lemma_target_unique(
        self,
        i1: int,
        c1: int,
        k1: int,
        i2: int,
        c2: int,
        k2: int,
        gx: int,
        gy: int,
    )
        requires
            self.wf(),
            self.cell_target(i1, c1, k1, gx, gy),
            self.cell_target(i2, c2, k2, gx, gy),
        ensures
            i1 == i2 && c1 == c2 && k1 == k2,
    {
        lemma_max_row_width(self.items@);
        assert(i1 == i2);
        if c1 != c2 {
            let (ca, ka, cb, kb) = if c1 < c2 {
                (c1, k1, c2, k2)
            } else {
                (c2, k2, c1, k1)
            };
            lemma_col_len_bound(self.items@, i1, ca);
            assert(ka < self.column_lengths@[ca]);
            assert(col_start(self.column_lengths@, ca) + ka < col_start(
                self.column_lengths@,
                ca + 1,
            ));
            lemma_prefix_sum_mono(self.column_lengths@, ca + 1, cb);
            assert(col_start(self.column_lengths@, ca + 1) <= col_start(self.column_lengths@, cb));
            assert(false);
        }
    }

    /// Every column span, and the block itself, stays inside the block
    /// width.
    pub proof fn lemma_col_span(self, c: int)
        requires
            self.wf(),
            0 <= c < self.column_lengths@.len(),
        ensures
            col_start(self.column_lengths@, c) >= 0,
            col_start(self.column_lengths@, c) + self.column_lengths@[c] <= self.block_width(),
    {
        let cols = self.column_lengths@;
        let nc = cols.len() as int;
        lemma_prefix_sum_mono(cols, 0, c);
        lemma_prefix_sum_mono(cols, c + 1, nc);
    }

    /// The block starts inside the interior and ends on or before the
    /// last interior column.
    pub proof fn lemma_block_placement(self)
        requires
            self.wf(),
        ensures
            1 <= self.horizontal_start(),
            self.horizontal_start() + self.block_width() <= self.area.width - 1,
            1 <= self.vertical_start(),
            self.vertical_start() + self.items@.len() <= self.area.height - 1,
    {
        let cols = self.column_lengths@;
        let nc = cols.len() as int;
        if nc > 0 {
            lemma_prefix_sum_mono(cols, 0, nc);
        }
    }

    /// Builds the widget over `area`, computing the per-column maximum
    /// widths. The grid must fit: at least one row, the row count inside
    /// the interior height, the block of columns and gaps strictly inside
    /// the interior width.
    pub fn new(
        items: Vec<Vec<String>>,
        vertical_alignment: VerticalAlignment,
        horizontal_alignment: HorizontalAlignment,
        area: Rectangle,
    ) -> (r: Table)
        requires
            area.wf(),
            items@.len() >= 1,
            items@.len() + 2 <= area.height,
            spec_block_width(items@) + 2 < area.width,
        ensures
            r.items == items,
            r.vertical_alignment == vertical_alignment,
            r.horizontal_alignment == horizontal_alignment,
            r.area == area,
            r.selected_row is None,
            r.column_lengths@.len() == max_row_width(items@),
            forall|c: int|
                0 <= c < r.column_lengths@.len() ==> #[trigger] r.column_lengths@[c] == col_len(
                    items@,
                    c,
                ),
            r.wf(),
    {
        let n = items.len();
        let mut nc: usize = 0;
        let mut i: usize = 0;
        while i < n
            invariant
                n == items@.len(),
                i <= n,
                nc == max_row_width(items@.take(i as int)),
            decreases n - i,
        {
            let len = items[i].len();
            proof {
                assert(items@.take(i + 1).drop_last() =~= items@.take(i as int));
                assert(items@.take(i + 1).last() == items@[i as int]);
            }
            if len > nc {
                nc = len;
            }
            i = i + 1;
        }
        proof {
            assert(items@.take(n as int) =~= items@);
        }
        let mut column_lengths: Vec<usize> = Vec::new();
        let mut z: usize = 0;
        while z < nc
            invariant
                z <= nc,
                column_lengths@.len() == z,
                forall|c: int| 0 <= c < z ==> #[trigger] column_lengths@[c] == 0,
            decreases nc - z,
        {
            column_lengths.push(0);
            z = z + 1;
        }
        proof {
            assert forall|c: int| 0 <= c < nc implies #[trigger] column_lengths@[c] == col_len(
                items@.take(0),
                c,
            ) by {
                assert(items@.take(0) =~= Seq::<Vec<String>>::empty());
            }
        }
        let mut i: usize = 0;
        while i < n
            invariant
                n == items@.len(),
                i <= n,
                nc == max_row_width(items@),
                column_lengths@.len() == nc,
                forall|c: int|
                    0 <= c < nc ==> #[trigger] column_lengths@[c] == col_len(
                        items@.take(i as int),
                        c,
                    ),
            decreases n - i,
        {
            let row_len = items[i].len();
            proof {
                lemma_max_row_width(items@);
            }
            let mut j: usize = 0;
            while j < row_len
                invariant
                    n == items@.len(),
                    i < n,
                    row_len == items@[i as int]@.len(),
                    row_len <= nc,
                    j <= row_len,
                    column_lengths@.len() == nc,
                    forall|c: int|
                        0 <= c < nc ==> #[trigger] column_lengths@[c] == (if c < j
                            && items@[i as int]@[c]@.len() > col_len(items@.take(i as int), c) {
                            items@[i as int]@[c]@.len() as int
                        } else {
                            col_len(items@.take(i as int), c)
                        }),
                decreases row_len - j,
            {
                let cell_len = items[i][j].as_str().unicode_len();
                if cell_len > column_lengths[j] {
                    column_lengths.set(j, cell_len);
                }
                j = j + 1;
            }
            proof {
                assert(items@.take(i + 1).drop_last() =~= items@.take(i as int));
                assert(items@.take(i + 1).last() == items@[i as int]);
                assert forall|c: int| 0 <= c < nc implies #[trigger] column_lengths@[c] == col_len(
                    items@.take(i + 1),
                    c,
                ) by {
                    lemma_col_len_nonneg(items@.take(i as int), c);
                }
            }
            i = i + 1;
        }
        proof {
            assert(items@.take(n as int) =~= items@);
        }
        let r = Table {
            items,
            vertical_alignment,
            horizontal_alignment,
            area,
            column_lengths,
            selected_row: None,
        };
        proof {
            lemma_prefix_sum_equal(r.column_lengths@, r.items@, nc as int);
        }
        r
    }

    /// Selects the row to highlight, or clears the selection. A selected
    /// index must name an existing row.
    pub fn set_selected(&mut self, row_index: Option<usize>)
        requires
            (match row_index {
                Some(i) => i < old(self).items@.len(),
                None => true,
            }),
        ensures
            *final(self) == (Table { selected_row: row_index, ..*old(self) }),
    {
        self.selected_row = row_index;
    }

    pub fn width(&self) -> (r: usize)
        ensures
            r == self.area.width,
    {
        self.area.width
    }

    pub fn height(&self) -> (r: usize)
        ensures
            r == self.area.height,
    {
        self.area.height
    }

    pub fn set_border_color(&mut self, color: Color)
        ensures
            *final(self) == (Table {
                area: (Rectangle { border_color: color, ..old(self).area }),
                ..*old(self)
            }),
    {
        self.area.set_border_color(color);
    }

    pub fn set_title(&mut self, title: Option<String>)
        requires
            (match title {
                Some(t) => t@.len() + 2 <= old(self).area.width,
                None => true,
            }),
        ensures
            *final(self) == (Table {
                area: (Rectangle { title, ..old(self).area }),
                ..*old(self)
            }),
    {
        self.area.set_title(title);
    }

    /// Draws the frame, paints the whole interior of the selected row in
    /// the highlight colors, then writes each entry at its column's start
    /// offset; entry glyphs change only the character of a cell, and
    /// entries shorter than their column are not padded.
    pub fn render(&self, terminal: &mut Terminal)
        requires
            old(terminal).wf(),
            self.wf(),
            self.area.fits(*old(terminal)),
        ensures
            final(terminal).wf(),
            final(terminal).same_size(*old(terminal)),
            forall|gx: int, gy: int|
                old(terminal).in_range(gx, gy) ==> final(terminal).spec_cell(gx, gy)
                    == self.rendered_cell(old(terminal).spec_cell(gx, gy), gx, gy),
            forall|lx: int|
                self.selected_row is Some && 1 <= lx <= self.area.width - 2
                    ==> #[trigger] final(terminal).spec_cell(
                    self.area.x + lx,
                    self.area.y + self.vertical_start() + self.selected_row->Some_0,
                ).background_color == Color::Cyan && final(terminal).spec_cell(
                    self.area.x + lx,
                    self.area.y + self.vertical_start() + self.selected_row->Some_0,
                ).foreground_color == Color::Black,
    {
        let ghost t0 = *terminal;
        self.area.render(terminal);
        let n = self.items.len();
        let y0 = match self.vertical_alignment {
            VerticalAlignment::Top => 1,
            VerticalAlignment::Bottom => self.area.height - n - 1,
            VerticalAlignment::Center => (self.area.height - n) / 2,
        };
        let nc = self.column_lengths.len();
        let mut total: usize = 0;
        let mut ci: usize = 0;
        while ci < nc
            invariant
                self.wf(),
                nc == self.column_lengths@.len(),
                ci <= nc,
                total == prefix_sum(self.column_lengths@, ci as int),
            decreases nc - ci,
        {
            proof {
                lemma_prefix_sum_mono(self.column_lengths@, ci + 1, nc as int);
            }
            total = total + self.column_lengths[ci];
            ci = ci + 1;
        }
        let b = if nc == 0 {
            0
        } else {
            total + nc - 1
        };
        proof {
            assert(b == self.block_width());
            assert(b + 2 < self.area.width);
        }
        let x0 = match self.horizontal_alignment {
            HorizontalAlignment::Left => 1,
            HorizontalAlignment::Right => self.area.width - 1 - b,
            HorizontalAlignment::Center => (self.area.width - b) / 2,
        };
        proof {
            assert(y0 == self.vertical_start());
            assert(x0 == self.horizontal_start());
            self.lemma_block_placement();
        }
        if let Some(selected_row) = self.selected_row {
            let gy = self.area.y + y0 + selected_row;
            let mut lx: usize = 1;
            while lx < self.area.width - 1
                invariant
                    terminal.wf(),
                    terminal.same_size(t0),
                    t0.wf(),
                    self.wf(),
                    self.area.fits(t0),
                    self.selected_row matches Some(r) && r == selected_row,
                    y0 == self.vertical_start(),
                    gy == self.area.y + y0 + selected_row,
                    1 <= lx <= self.area.width - 1,
                    1 <= y0 && y0 + self.items@.len() <= self.area.height - 1,
                    forall|gx2: int, gy2: int|
                        t0.in_range(gx2, gy2) ==> terminal.spec_cell(gx2, gy2) == (if self.selection_covers(
                            gx2,
                            gy2,
                        ) && gx2 < self.area.x + lx {
                            self.pre_content_cell(t0.spec_cell(gx2, gy2), gx2, gy2)
                        } else {
                            self.area.rendered_cell(t0.spec_cell(gx2, gy2), gx2, gy2)
                        }),
                decreases self.area.width - 1 - lx,
            {
                let gx = self.area.x + lx;
                let mut cell = terminal.cell_at(gx, gy);
                cell.foreground_color = Color::Black;
                cell.background_color = Color::Cyan;
                terminal.put_cell(gx, gy, cell);
                lx = lx + 1;
            }
        }
        proof {
            assert forall|gx2: int, gy2: int| t0.in_range(gx2, gy2) implies terminal.spec_cell(
                gx2,
                gy2,
            ) == self.pre_content_cell(t0.spec_cell(gx2, gy2), gx2, gy2) by {}
        }
        let mut ri: usize = 0;
        while ri < n
            invariant
                terminal.wf(),
                terminal.same_size(t0),
                t0.wf(),
                self.wf(),
                self.area.fits(t0),
                n == self.items@.len(),
                y0 == self.vertical_start(),
                x0 == self.horizontal_start(),
                1 <= y0 && y0 + n <= self.area.height - 1,
                1 <= x0 && x0 + self.block_width() <= self.area.width - 1,
                ri <= n,
                forall|gx2: int, gy2: int|
                    t0.in_range(gx2, gy2) ==> terminal.spec_cell(gx2, gy2) == (if self.target_before(
                        gx2,
                        gy2,
                        ri as int,
                        0,
                        0,
                    ) {
                        self.rendered_cell(t0.spec_cell(gx2, gy2), gx2, gy2)
                    } else {
                        self.pre_content_cell(t0.spec_cell(gx2, gy2), gx2, gy2)
                    }),
            decreases n - ri,
        {
            let gy = self.area.y + y0 + ri;
            let row_len = self.items[ri].len();
            proof {
                lemma_max_row_width(self.items@);
            }
            let mut rc: usize = 0;
            let mut xc: usize = 0;
            while rc < row_len
                invariant
                    terminal.wf(),
                    terminal.same_size(t0),
                    t0.wf(),
                    self.wf(),
                    self.area.fits(t0),
                    n == self.items@.len(),
                    ri < n,
                    y0 == self.vertical_start(),
                    x0 == self.horizontal_start(),
                    1 <= y0 && y0 + n <= self.area.height - 1,
                    1 <= x0 && x0 + self.block_width() <= self.area.width - 1,
                    gy == self.area.y + y0 + ri,
                    row_len == self.items@[ri as int]@.len(),
                    row_len <= self.column_lengths@.len(),
                    rc <= row_len,
                    xc == col_start(self.column_lengths@, rc as int),
                    forall|gx2: int, gy2: int|
                        t0.in_range(gx2, gy2) ==> terminal.spec_cell(gx2, gy2) == (if self.target_before(
                            gx2,
                            gy2,
                            ri as int,
                            rc as int,
                            0,
                        ) {
                            self.rendered_cell(t0.spec_cell(gx2, gy2), gx2, gy2)
                        } else {
                            self.pre_content_cell(t0.spec_cell(gx2, gy2), gx2, gy2)
                        }),
                decreases row_len - rc,
            {
                let clen = self.items[ri][rc].as_str().unicode_len();
                proof {
                    lemma_col_len_bound(self.items@, ri as int, rc as int);
                    self.lemma_col_span(rc as int);
                    assert(xc + clen <= self.block_width());
                }
                let mut rk: usize = 0;
                while rk < clen
                    invariant
                        terminal.wf(),
                        terminal.same_size(t0),
                        t0.wf(),
                        self.wf(),
                        self.area.fits(t0),
                        n == self.items@.len(),
                        ri < n,
                        rc < row_len,
                        row_len == self.items@[ri as int]@.len(),
                        y0 == self.vertical_start(),
                        x0 == self.horizontal_start(),
                        1 <= y0 && y0 + n <= self.area.height - 1,
                        1 <= x0 && x0 + self.block_width() <= self.area.width - 1,
                        gy == self.area.y + y0 + ri,
                        clen == self.items@[ri as int]@[rc as int]@.len(),
                        xc == col_start(self.column_lengths@, rc as int),
                        xc >= 0,
                        xc + clen <= self.block_width(),
                        rk <= clen,
                        forall|gx2: int, gy2: int|
                            t0.in_range(gx2, gy2) ==> terminal.spec_cell(gx2, gy2) == (if self.target_before(
                                gx2,
                                gy2,
                                ri as int,
                                rc as int,
                                rk as int,
                            ) {
                                self.rendered_cell(t0.spec_cell(gx2, gy2), gx2, gy2)
                            } else {
                                self.pre_content_cell(t0.spec_cell(gx2, gy2), gx2, gy2)
                            }),
                    decreases clen - rk,
                {
                    let gx = self.area.x + x0 + xc + rk;
                    let c = self.items[ri][rc].as_str().get_char(rk);
                    let mut cell = terminal.cell_at(gx, gy);
                    cell.character = c;
                    terminal.put_cell(gx, gy, cell);
                    proof {
                        assert(self.cell_target(ri as int, rc as int, rk as int, gx as int,
                            gy as int));
                        assert forall|gx2: int, gy2: int| t0.in_range(gx2, gy2)
                            implies terminal.spec_cell(gx2, gy2) == (if self.target_before(
                            gx2,
                            gy2,
                            ri as int,
                            rc as int,
                            rk + 1,
                        ) {
                            self.rendered_cell(t0.spec_cell(gx2, gy2), gx2, gy2)
                        } else {
                            self.pre_content_cell(t0.spec_cell(gx2, gy2), gx2, gy2)
                        }) by {
                            if gx2 == gx && gy2 == gy {
                                assert(self.target_before(gx2, gy2, ri as int, rc as int, rk + 1));
                                assert(self.content_covers(gx2, gy2));
                                let (i2, c2, k2) = choose|i2: int, c2: int, k2: int|
                                    self.cell_target(i2, c2, k2, gx2, gy2);
                                self.lemma_target_unique(
                                    i2,
                                    c2,
                                    k2,
                                    ri as int,
                                    rc as int,
                                    rk as int,
                                    gx2,
                                    gy2,
                                );
                            } else {
                                if self.target_before(gx2, gy2, ri as int, rc as int, rk + 1) {
                                    let (i2, c2, k2) = choose|i2: int, c2: int, k2: int|
                                        self.cell_target(i2, c2, k2, gx2, gy2) && (i2 < ri as int
                                            || (i2 == ri as int && (c2 < rc as int || (c2
                                            == rc as int && k2 < rk + 1))));
                                    if i2 == ri as int && c2 == rc as int && k2 == rk as int {
                                        assert(gx2 == gx && gy2 == gy);
                                        assert(false);
                                    }
                                    assert(self.cell_target(i2, c2, k2, gx2, gy2) && (i2
                                        < ri as int || (i2 == ri as int && (c2 < rc as int || (c2
                                        == rc as int && k2 < rk as int)))));
                                    assert(self.target_before(gx2, gy2, ri as int, rc as int,
                                        rk as int));
                                }
                                if self.target_before(gx2, gy2, ri as int, rc as int, rk as int) {
                                    let (i2, c2, k2) = choose|i2: int, c2: int, k2: int|
                                        self.cell_target(i2, c2, k2, gx2, gy2) && (i2 < ri as int
                                            || (i2 == ri as int && (c2 < rc as int || (c2
                                            == rc as int && k2 < rk as int))));
                                    assert(self.cell_target(i2, c2, k2, gx2, gy2) && (i2
                                        < ri as int || (i2 == ri as int && (c2 < rc as int || (c2
                                        == rc as int && k2 < rk + 1)))));
                                    assert(self.target_before(gx2, gy2, ri as int, rc as int, rk
                                        + 1));
                                }
                            }
                        }
                    }
                    rk = rk + 1;
                }
                proof {
                    assert forall|gx2: int, gy2: int|
                        self.target_before(gx2, gy2, ri as int, rc as int, clen as int)
                            == self.target_before(gx2, gy2, ri as int, rc + 1, 0) by {
                        if self.target_before(gx2, gy2, ri as int, rc as int, clen as int) {
                            let (i2, c2, k2) = choose|i2: int, c2: int, k2: int|
                                self.cell_target(i2, c2, k2, gx2, gy2) && (i2 < ri as int || (i2
                                    == ri as int && (c2 < rc as int || (c2 == rc as int && k2
                                    < clen as int))));
                            assert(self.cell_target(i2, c2, k2, gx2, gy2) && (i2 < ri as int || (
                            i2 == ri as int && (c2 < rc + 1 || (c2 == rc + 1 && k2 < 0)))));
                            assert(self.target_before(gx2, gy2, ri as int, rc + 1, 0));
                        }
                        if self.target_before(gx2, gy2, ri as int, rc + 1, 0) {
                            let (i2, c2, k2) = choose|i2: int, c2: int, k2: int|
                                self.cell_target(i2, c2, k2, gx2, gy2) && (i2 < ri as int || (i2
                                    == ri as int && (c2 < rc + 1 || (c2 == rc + 1 && k2 < 0))));
                            assert(self.cell_target(i2, c2, k2, gx2, gy2) && (i2 < ri as int || (
                            i2 == ri as int && (c2 < rc as int || (c2 == rc as int && k2
                                < clen as int)))));
                            assert(self.target_before(gx2, gy2, ri as int, rc as int,
                                clen as int));
                        }
                    }
                }
                xc = xc + self.column_lengths[rc] + 1;
                rc = rc + 1;
            }
            proof {
                assert forall|gx2: int, gy2: int|
                    self.target_before(gx2, gy2, ri as int, row_len as int, 0)
                        == self.target_before(gx2, gy2, ri + 1, 0, 0) by {
                    if self.target_before(gx2, gy2, ri as int, row_len as int, 0) {
                        let (i2, c2, k2) = choose|i2: int, c2: int, k2: int|
                            self.cell_target(i2, c2, k2, gx2, gy2) && (i2 < ri as int || (i2
                                == ri as int && (c2 < row_len as int || (c2 == row_len as int && k2
                                < 0))));
                        assert(self.cell_target(i2, c2, k2, gx2, gy2) && (i2 < ri + 1 || (i2 == ri
                            + 1 && (c2 < 0 || (c2 == 0 && k2 < 0)))));
                        assert(self.target_before(gx2, gy2, ri + 1, 0, 0));
                    }
                    if self.target_before(gx2, gy2, ri + 1, 0, 0) {
                        let (i2, c2, k2) = choose|i2: int, c2: int, k2: int|
                            self.cell_target(i2, c2, k2, gx2, gy2) && (i2 < ri + 1 || (i2 == ri + 1
                                && (c2 < 0 || (c2 == 0 && k2 < 0))));
                        assert(self.cell_target(i2, c2, k2, gx2, gy2) && (i2 < ri as int || (i2
                            == ri as int && (c2 < row_len as int || (c2 == row_len as int && k2
                            < 0)))));
                        assert(self.target_before(gx2, gy2, ri as int, row_len as int, 0));
                    }
                }
            }
            ri = ri + 1;
        }
        proof {
            assert forall|gx2: int, gy2: int| t0.in_range(gx2, gy2) implies terminal.spec_cell(
                gx2,
                gy2,
            ) == self.rendered_cell(t0.spec_cell(gx2, gy2), gx2, gy2) by {
                if self.target_before(gx2, gy2, n as int, 0, 0) {
                    let (i2, c2, k2) = choose|i2: int, c2: int, k2: int|
                        self.cell_target(i2, c2, k2, gx2, gy2) && (i2 < n as int || (i2 == n as int
                            && (c2 < 0 || (c2 == 0 && k2 < 0))));
                    assert(self.content_covers(gx2, gy2));
                } else {
                    if self.content_covers(gx2, gy2) {
                        let (i2, c2, k2) = choose|i2: int, c2: int, k2: int|
                            self.cell_target(i2, c2, k2, gx2, gy2);
                        assert(self.cell_target(i2, c2, k2, gx2, gy2) && (i2 < n as int || (i2
                            == n as int && (c2 < 0 || (c2 == 0 && k2 < 0)))));
                        assert(self.target_before(gx2, gy2, n as int, 0, 0));
                        assert(false);
                    }
                }
            }
            if self.selected_row is Some {
                let sel = self.selected_row->Some_0;
                assert forall|lx: int| 1 <= lx <= self.area.width - 2 implies #[trigger] terminal.spec_cell(
                    self.area.x + lx,
                    self.area.y + self.vertical_start() + sel,
                ).background_color == Color::Cyan && terminal.spec_cell(
                    self.area.x + lx,
                    self.area.y + self.vertical_start() + sel,
                ).foreground_color == Color::Black by {
                    let gx = self.area.x + lx;
                    let gy = self.area.y + self.vertical_start() + sel;
                    assert(t0.in_range(gx, gy));
                    assert(self.selection_covers(gx, gy));
                }
            }
        }
    }
}

impl Rectangle {
    /// Consumes the rectangle and attaches a grid of items to it.
    pub fn table(
        self,
        items: Vec<Vec<String>>,
        vertical_alignment: VerticalAlignment,
        horizontal_alignment: HorizontalAlignment,
    ) -> (r: Table)
        requires
            self.wf(),
            items@.len() >= 1,
            items@.len() + 2 <= self.height,
            spec_block_width(items@) + 2 < self.width,
        ensures
            r.items == items,
            r.vertical_alignment == vertical_alignment,
            r.horizontal_alignment == horizontal_alignment,
            r.area == self,
            r.selected_row is None,
            r.wf(),
    {
        Table::new(items, vertical_alignment, horizontal_alignment, self)
    }
}

} // verus!
