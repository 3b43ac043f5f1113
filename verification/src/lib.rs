//! A tiny terminal user-interface toolkit in the style of a tiling window
//! manager: the screen is recursively split into rectangular regions, each
//! region renders a widget (bordered frame, aligned text, item list, table)
//! into a shared cell buffer, and the buffer is serialized once per frame
//! into a stream of glyphs and color escape sequences.

pub mod align;
pub mod cell;
pub mod color;
pub mod item_list;
pub mod rect;
pub mod table;
pub mod terminal;
pub mod text;
pub mod widget;
pub mod wrap;

pub use align::HorizontalAlignment;
pub use align::VerticalAlignment;
pub use cell::Cell;
pub use color::Color;
pub use item_list::ItemList;
pub use rect::Rectangle;
pub use table::Table;
pub use terminal::Terminal;
pub use text::Text;
pub use widget::Widget;
pub use wrap::HardwrappingText;
