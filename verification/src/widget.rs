use vstd::prelude::*;

use crate::cell::Cell;
use crate::color::Color;
use crate::item_list::ItemList;
use crate::rect::Rectangle;
use crate::table::Table;
use crate::terminal::Terminal;
use crate::text::Text;

verus! {

/// The closed set of renderable content shapes behind one interface: a
/// bare bordered frame, aligned text, a selectable item list, or a table.
/// Every variant renders into the shared cell buffer and exposes its
/// region's size, title and border color.
pub enum Widget {
    Frame(Rectangle),
    Text(Text),
    List(ItemList),
    Table(Table),
}

impl Widget {
    /// The region the widget draws into.
    pub open spec fn spec_area(self) -> Rectangle {
        match self {
            Widget::Frame(r) => r,
            Widget::Text(t) => t.area,
            Widget::List(l) => l.area,
            Widget::Table(t) => t.area,
        }
    }

    /// The variant's own construction contract.
    pub open spec fn wf(self) -> bool {
        match self {
            Widget::Frame(r) => r.wf(),
            Widget::Text(t) => t.wf() && t.area.height >= 2,
            Widget::List(l) => l.wf(),
            Widget::Table(t) => t.wf(),
        }
    }

    /// What rendering the widget leaves at screen position `(gx, gy)`
    /// whose previous content is `prev`.
    pub open spec fn rendered(self, prev: Cell, gx: int, gy: int) -> Cell {
        match self {
            Widget::Frame(r) => r.rendered_cell(prev, gx, gy),
            Widget::Text(t) => t.rendered_cell(prev, gx, gy),
            Widget::List(l) => l.rendered_cell(prev, gx, gy),
            Widget::Table(t) => t.rendered_cell(prev, gx, gy),
        }
    }

    /// Renders the variant into the buffer.
    pub fn render(&self, terminal: &mut Terminal)
        requires
            old(terminal).wf(),
            self.wf(),
            self.spec_area().fits(*old(terminal)),
        ensures
            final(terminal).wf(),
            final(terminal).same_size(*old(terminal)),
            forall|gx: int, gy: int|
                old(terminal).in_range(gx, gy) ==> final(terminal).spec_cell(gx, gy)
                    == self.rendered(old(terminal).spec_cell(gx, gy), gx, gy),
    {
        match self {
            Widget::Frame(r) => r.render(terminal),
            Widget::Text(t) => t.render(terminal),
            Widget::List(l) => l.render(terminal),
            Widget::Table(t) => t.render(terminal),
        }
    }

    pub fn width(&self) -> (r: usize)
        ensures
            r == self.spec_area().width,
    {
        match self {
            Widget::Frame(r) => r.width(),
            Widget::Text(t) => t.width(),
            Widget::List(l) => l.width(),
            Widget::Table(t) => t.width(),
        }
    }

    pub fn height(&self) -> (r: usize)
        ensures
            r == self.spec_area().height,
    {
        match self {
            Widget::Frame(r) => r.height(),
            Widget::Text(t) => t.height(),
            Widget::List(l) => l.height(),
            Widget::Table(t) => t.height(),
        }
    }

    pub fn set_border_color(&mut self, color: Color)
        ensures
            final(self).spec_area() == (Rectangle {
                border_color: color,
                ..old(self).spec_area()
            }),
            (match (*old(self), *final(self)) {
                (Widget::Frame(_), Widget::Frame(_)) => true,
                (Widget::Text(a), Widget::Text(b)) => b == (Text { area: b.area, ..a }),
                (Widget::List(a), Widget::List(b)) => b == (ItemList { area: b.area, ..a }),
                (Widget::Table(a), Widget::Table(b)) => b == (Table { area: b.area, ..a }),
                _ => false,
            }),
    {
        match self {
            Widget::Frame(r) => r.set_border_color(color),
            Widget::Text(t) => t.set_border_color(color),
            Widget::List(l) => l.set_border_color(color),
            Widget::Table(t) => t.set_border_color(color),
        }
    }

    pub fn set_title(&mut self, title: Option<String>)
        requires
            (match title {
                Some(t) => t@.len() + 2 <= old(self).spec_area().width,
                None => true,
            }),
        ensures
            final(self).spec_area() == (Rectangle { title, ..old(self).spec_area() }),
            (match (*old(self), *final(self)) {
                (Widget::Frame(_), Widget::Frame(_)) => true,
                (Widget::Text(a), Widget::Text(b)) => b == (Text { area: b.area, ..a }),
                (Widget::List(a), Widget::List(b)) => b == (ItemList { area: b.area, ..a }),
                (Widget::Table(a), Widget::Table(b)) => b == (Table { area: b.area, ..a }),
                _ => false,
            }),
    {
        match self {
            Widget::Frame(r) => r.set_title(title),
            Widget::Text(t) => t.set_title(title),
            Widget::List(l) => l.set_title(title),
            Widget::Table(t) => t.set_title(title),
        }
    }
}

} // verus!
