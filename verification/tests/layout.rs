use tinytui::{Cell, Color, Rectangle, Terminal};

#[test]
fn horizontal_split_partitions_width() {
    let screen = Rectangle::new(None, 0, 0, 20, 5);
    let (left, right) = screen.split_horizontally();
    assert_eq!(left.width(), 10);
    assert_eq!(right.width(), 10);
    assert_eq!(left.width() + right.width(), 20);
    assert_eq!(left.height(), 5);
    assert_eq!(right.height(), 5);
}

#[test]
fn horizontal_split_at_odd_width() {
    let screen = Rectangle::new(None, 2, 3, 7, 4);
    let (left, right) = screen.split_horizontally_at_width(3);
    assert_eq!(left.width() + right.width(), 7);
    assert_eq!(left.width(), 3);
    assert_eq!(right.width(), 4);
    assert_eq!(left.height(), 4);
    assert_eq!(right.height(), 4);
}

#[test]
fn vertical_split_partitions_height() {
    let screen = Rectangle::new(None, 0, 0, 20, 5);
    let (top, bottom) = screen.split_vertically();
    assert_eq!(top.height(), 2);
    assert_eq!(bottom.height(), 3);
    assert_eq!(top.height() + bottom.height(), 5);
    assert_eq!(top.width(), 20);
    assert_eq!(bottom.width(), 20);
}

#[test]
fn vertical_split_at_chosen_height() {
    let screen = Rectangle::new(None, 1, 1, 6, 9);
    let (top, bottom) = screen.split_vertically_at_height(2);
    assert_eq!(top.height(), 2);
    assert_eq!(bottom.height(), 7);
    assert_eq!(top.height() + bottom.height(), 9);
    assert_eq!(top.width(), 6);
    assert_eq!(bottom.width(), 6);
}

#[test]
fn terminal_starts_with_default_cells() {
    let terminal = Terminal::new(4, 3);
    for y in 0..3 {
        for x in 0..4 {
            let cell: Cell = terminal.cell_at(x, y);
            assert_eq!(cell.character, ' ');
            assert!(cell.foreground_color == Color::Default);
            assert!(cell.background_color == Color::Default);
        }
    }
}

#[test]
fn rectangle_render_draws_border_ring() {
    let mut terminal = Terminal::new(6, 4);
    let area = terminal.area();
    area.render(&mut terminal);
    assert_eq!(terminal.cell_at(0, 0).character, '\u{250c}');
    assert_eq!(terminal.cell_at(5, 0).character, '\u{2510}');
    assert_eq!(terminal.cell_at(0, 3).character, '\u{2514}');
    assert_eq!(terminal.cell_at(5, 3).character, '\u{2518}');
    assert_eq!(terminal.cell_at(2, 0).character, '\u{2500}');
    assert_eq!(terminal.cell_at(2, 3).character, '\u{2500}');
    assert_eq!(terminal.cell_at(0, 1).character, '\u{2502}');
    assert_eq!(terminal.cell_at(5, 2).character, '\u{2502}');
    assert_eq!(terminal.cell_at(2, 1).character, ' ');
    assert_eq!(terminal.cell_at(3, 2).character, ' ');
}

#[test]
fn rectangle_render_writes_title_over_top_border() {
    let mut terminal = Terminal::new(8, 3);
    let mut area = terminal.area();
    area.set_title(Some("hi".to_string()));
    area.set_border_color(Color::Green);
    area.render(&mut terminal);
    assert_eq!(terminal.cell_at(2, 0).character, 'h');
    assert_eq!(terminal.cell_at(3, 0).character, 'i');
    assert_eq!(terminal.cell_at(1, 0).character, '\u{2500}');
    assert_eq!(terminal.cell_at(4, 0).character, '\u{2500}');
    assert!(terminal.cell_at(2, 0).foreground_color == Color::Green);
    assert!(terminal.cell_at(1, 0).foreground_color == Color::Green);
}

#[test]
fn split_inherits_border_color_but_not_title() {
    let mut screen = Rectangle::new(None, 0, 0, 10, 4);
    screen.set_title(Some("t".to_string()));
    screen.set_border_color(Color::Cyan);
    let (left, right) = screen.split_horizontally();
    let mut terminal = Terminal::new(10, 4);
    left.render(&mut terminal);
    right.render(&mut terminal);
    assert!(terminal.cell_at(0, 0).foreground_color == Color::Cyan);
    assert!(terminal.cell_at(9, 0).foreground_color == Color::Cyan);
    assert_eq!(terminal.cell_at(2, 0).character, '\u{2500}');
    assert_eq!(terminal.cell_at(7, 0).character, '\u{2500}');
}

#[test]
fn one_cell_rectangle_renders_the_top_left_corner_glyph() {
    let mut terminal = Terminal::new(3, 3);
    let area = Rectangle::new(None, 1, 1, 1, 1);
    area.render(&mut terminal);
    assert_eq!(terminal.cell_at(1, 1).character, '\u{250c}');
    assert_eq!(terminal.cell_at(0, 0).character, ' ');
    assert_eq!(terminal.cell_at(2, 2).character, ' ');
}

#[test]
fn one_column_rectangle_renders_corners_and_a_vertical_run() {
    let mut terminal = Terminal::new(1, 4);
    let area = terminal.area();
    area.render(&mut terminal);
    assert_eq!(terminal.cell_at(0, 0).character, '\u{250c}');
    assert_eq!(terminal.cell_at(0, 1).character, '\u{2502}');
    assert_eq!(terminal.cell_at(0, 2).character, '\u{2502}');
    assert_eq!(terminal.cell_at(0, 3).character, '\u{2514}');
}

#[test]
fn title_of_full_interior_width_reaches_the_right_corner() {
    let mut terminal = Terminal::new(6, 3);
    let mut area = terminal.area();
    area.set_title(Some("abcd".to_string()));
    area.render(&mut terminal);
    assert_eq!(terminal.cell_at(2, 0).character, 'a');
    assert_eq!(terminal.cell_at(3, 0).character, 'b');
    assert_eq!(terminal.cell_at(4, 0).character, 'c');
    // the last title character overwrites the top-right corner glyph
    assert_eq!(terminal.cell_at(5, 0).character, 'd');
}
