use tinytui::{Cell, Color, HorizontalAlignment, Terminal, VerticalAlignment};

fn drawn(terminal: &mut Terminal) -> String {
    terminal.draw().into_iter().collect()
}

#[test]
fn full_cycle_places_both_texts() {
    // A 20 by 5 screen split at the middle into two text widgets: "L"
    // top-left of the left half, "R" bottom-right of the right half.
    let mut terminal = Terminal::new(20, 5);
    let screen = terminal.area();
    let (left, right) = screen.split_horizontally();
    let left_text = left.text(
        "L".to_string(),
        VerticalAlignment::Top,
        HorizontalAlignment::Left,
    );
    let right_text = right.text(
        "R".to_string(),
        VerticalAlignment::Bottom,
        HorizontalAlignment::Right,
    );
    left_text.render(&mut terminal);
    right_text.render(&mut terminal);
    // "R" sits at the last interior row and column of the right half
    assert_eq!(terminal.cell_at(1, 1).character, 'L');
    assert_eq!(terminal.cell_at(18, 3).character, 'R');
    let frame = drawn(&mut terminal);
    // every cell keeps the default colors, so after the clear sequence and
    // the two explicit resets no further escape appears: one character per
    // cell, row-major
    let prefix = "\x1b[2J\x1b[39m\x1b[49m";
    assert!(frame.starts_with(prefix));
    let cells: Vec<char> = frame.chars().skip(prefix.chars().count()).collect();
    assert_eq!(cells.len(), 20 * 5);
    assert_eq!(cells[1 * 20 + 1], 'L');
    assert_eq!(cells[3 * 20 + 18], 'R');
    assert_eq!(cells[0], '\u{250c}');
    assert_eq!(cells[9], '\u{2510}');
    assert_eq!(cells[10], '\u{250c}');
    assert_eq!(cells[19], '\u{2510}');
}

#[test]
fn draw_emits_an_escape_only_where_the_color_changes() {
    let mut terminal = Terminal::new(3, 1);
    let green = Cell {
        character: 'x',
        foreground_color: Color::Green,
        background_color: Color::Default,
    };
    terminal.put_cell(0, 0, green);
    terminal.put_cell(
        1,
        0,
        Cell {
            character: 'y',
            foreground_color: Color::Green,
            background_color: Color::Default,
        },
    );
    terminal.put_cell(
        2,
        0,
        Cell {
            character: 'z',
            foreground_color: Color::Black,
            background_color: Color::Cyan,
        },
    );
    let frame = drawn(&mut terminal);
    // the green escape is emitted once for the run of two cells; the last
    // cell switches both colors
    assert_eq!(frame, "\x1b[2J\x1b[39m\x1b[49m\x1b[32mxy\x1b[30m\x1b[46mz");
}

#[test]
fn draw_starts_from_the_default_colors_explicitly() {
    let mut terminal = Terminal::new(1, 1);
    terminal.put_cell(
        0,
        0,
        Cell {
            character: 'q',
            foreground_color: Color::Default,
            background_color: Color::Default,
        },
    );
    let frame = drawn(&mut terminal);
    assert_eq!(frame, "\x1b[2J\x1b[39m\x1b[49mq");
}

#[test]
fn draw_clears_the_buffer_back_to_default_cells() {
    let mut terminal = Terminal::new(2, 2);
    terminal.put_cell(
        1,
        1,
        Cell {
            character: 'w',
            foreground_color: Color::Cyan,
            background_color: Color::Black,
        },
    );
    let _ = terminal.draw();
    for y in 0..2 {
        for x in 0..2 {
            let cell = terminal.cell_at(x, y);
            assert_eq!(cell.character, ' ');
            assert!(cell.foreground_color == Color::Default);
            assert!(cell.background_color == Color::Default);
        }
    }
}

#[test]
fn later_renders_overwrite_earlier_ones() {
    // border first, content after: the text widget repaints its region's
    // frame over whatever was there
    let mut terminal = Terminal::new(8, 3);
    let area = terminal.area();
    terminal.put_cell(
        1,
        1,
        Cell {
            character: '#',
            foreground_color: Color::Green,
            background_color: Color::Green,
        },
    );
    let text = area.text(
        "ok".to_string(),
        VerticalAlignment::Top,
        HorizontalAlignment::Left,
    );
    text.render(&mut terminal);
    let cell = terminal.cell_at(1, 1);
    assert_eq!(cell.character, 'o');
    // content writes replace only the glyph, never the colors beneath
    assert!(cell.foreground_color == Color::Green);
    assert!(cell.background_color == Color::Green);
}
