use tinytui::{Color, HorizontalAlignment, Rectangle, Terminal, VerticalAlignment, Widget};

#[test]
fn centered_text_starts_at_half_the_slack() {
    // Interior width 10, one line of 2 characters: the first character
    // lands at interior column (10 - 2) / 2 = 4, which is region column 5.
    let mut terminal = Terminal::new(12, 5);
    let area = terminal.area();
    let text = area.text(
        "Hi".to_string(),
        VerticalAlignment::Center,
        HorizontalAlignment::Center,
    );
    text.render(&mut terminal);
    assert_eq!(terminal.cell_at(5, 2).character, 'H');
    assert_eq!(terminal.cell_at(6, 2).character, 'i');
    assert_eq!(terminal.cell_at(4, 2).character, ' ');
    assert_eq!(terminal.cell_at(7, 2).character, ' ');
}

#[test]
fn text_wraps_and_honors_breaks() {
    let mut terminal = Terminal::new(6, 5);
    let area = terminal.area();
    let text = area.text(
        "abcdefg".to_string(),
        VerticalAlignment::Top,
        HorizontalAlignment::Left,
    );
    text.render(&mut terminal);
    assert_eq!(terminal.cell_at(1, 1).character, 'a');
    assert_eq!(terminal.cell_at(2, 1).character, 'b');
    assert_eq!(terminal.cell_at(3, 1).character, 'c');
    assert_eq!(terminal.cell_at(4, 1).character, 'd');
    assert_eq!(terminal.cell_at(1, 2).character, 'e');
    assert_eq!(terminal.cell_at(2, 2).character, 'f');
    assert_eq!(terminal.cell_at(3, 2).character, 'g');
}

#[test]
fn text_lines_beyond_interior_height_are_dropped() {
    // Interior is 3 columns by 1 row; "abcdef" wraps to two lines and only
    // the first is drawn.
    let mut terminal = Terminal::new(5, 3);
    let area = terminal.area();
    let text = area.text(
        "abcdef".to_string(),
        VerticalAlignment::Top,
        HorizontalAlignment::Left,
    );
    text.render(&mut terminal);
    assert_eq!(terminal.cell_at(1, 1).character, 'a');
    assert_eq!(terminal.cell_at(2, 1).character, 'b');
    assert_eq!(terminal.cell_at(3, 1).character, 'c');
    // the second wrapped line would land on the bottom border row; it is
    // dropped, so the border glyph is intact
    assert_eq!(terminal.cell_at(1, 2).character, '\u{2500}');
}

#[test]
fn change_text_recomputes_line_count() {
    let terminal = Terminal::new(6, 5);
    let area = terminal.area();
    let mut text = area.text(
        "abcdefgh".to_string(),
        VerticalAlignment::Top,
        HorizontalAlignment::Left,
    );
    assert_eq!(text.lines_count, 2);
    text.change_text(Some("ab".to_string()));
    assert_eq!(text.lines_count, 1);
    text.change_text(None);
    assert_eq!(text.lines_count, 0);
}

#[test]
fn selected_row_is_highlighted_across_the_whole_interior() {
    // The item "a" is 1 character long, but the highlight must span every
    // interior column of its row.
    let mut terminal = Terminal::new(10, 5);
    let area = terminal.area();
    let mut list = area.item_list(
        vec!["a".to_string(), "b".to_string()],
        VerticalAlignment::Top,
        HorizontalAlignment::Left,
    );
    list.set_selected(Some(0));
    list.render(&mut terminal);
    for x in 1..=8 {
        let cell = terminal.cell_at(x, 1);
        assert!(cell.background_color == Color::Cyan);
        assert!(cell.foreground_color == Color::Black);
    }
    assert_eq!(terminal.cell_at(1, 1).character, 'a');
    assert_eq!(terminal.cell_at(1, 2).character, 'b');
    assert!(terminal.cell_at(1, 2).background_color == Color::Default);
}

#[test]
fn item_list_block_shares_one_horizontal_origin() {
    // Right alignment is keyed on the longest item; shorter items share
    // the block's left edge rather than being right-aligned one by one.
    let mut terminal = Terminal::new(10, 6);
    let area = terminal.area();
    let list = area.item_list(
        vec!["a".to_string(), "bbb".to_string()],
        VerticalAlignment::Top,
        HorizontalAlignment::Right,
    );
    list.render(&mut terminal);
    assert_eq!(terminal.cell_at(6, 1).character, 'a');
    assert_eq!(terminal.cell_at(6, 2).character, 'b');
    assert_eq!(terminal.cell_at(7, 2).character, 'b');
    assert_eq!(terminal.cell_at(8, 2).character, 'b');
}

#[test]
fn empty_item_list_draws_only_the_frame() {
    let mut terminal = Terminal::new(6, 4);
    let area = terminal.area();
    let list = area.item_list(
        Vec::new(),
        VerticalAlignment::Center,
        HorizontalAlignment::Center,
    );
    list.render(&mut terminal);
    for x in 1..=4 {
        for y in 1..=2 {
            assert_eq!(terminal.cell_at(x, y).character, ' ');
        }
    }
}

#[test]
fn table_column_lengths_are_per_column_maxima() {
    let terminal = Terminal::new(10, 5);
    let area = terminal.area();
    let table = area.table(
        vec![
            vec!["a".to_string(), "bb".to_string()],
            vec!["ccc".to_string(), "d".to_string()],
        ],
        VerticalAlignment::Top,
        HorizontalAlignment::Left,
    );
    assert_eq!(table.column_lengths, vec![3, 2]);
}

#[test]
fn table_second_column_starts_after_first_width_plus_gap() {
    // column_lengths are [3, 2], so the second column's offset within the
    // block is 3 + 1 = 4; with a left-aligned block the interior starts at
    // region column 1, putting "bb" at columns 5 and 6.
    let mut terminal = Terminal::new(10, 5);
    let area = terminal.area();
    let table = area.table(
        vec![
            vec!["a".to_string(), "bb".to_string()],
            vec!["ccc".to_string(), "d".to_string()],
        ],
        VerticalAlignment::Top,
        HorizontalAlignment::Left,
    );
    table.render(&mut terminal);
    assert_eq!(terminal.cell_at(1, 1).character, 'a');
    assert_eq!(terminal.cell_at(5, 1).character, 'b');
    assert_eq!(terminal.cell_at(6, 1).character, 'b');
    assert_eq!(terminal.cell_at(1, 2).character, 'c');
    assert_eq!(terminal.cell_at(2, 2).character, 'c');
    assert_eq!(terminal.cell_at(3, 2).character, 'c');
    assert_eq!(terminal.cell_at(5, 2).character, 'd');
    // entries shorter than their column are not padded
    assert_eq!(terminal.cell_at(2, 1).character, ' ');
    assert_eq!(terminal.cell_at(6, 2).character, ' ');
}

#[test]
fn table_selected_row_is_highlighted_across_the_whole_interior() {
    let mut terminal = Terminal::new(10, 5);
    let area = terminal.area();
    let mut table = area.table(
        vec![
            vec!["a".to_string(), "bb".to_string()],
            vec!["ccc".to_string(), "d".to_string()],
        ],
        VerticalAlignment::Top,
        HorizontalAlignment::Left,
    );
    table.set_selected(Some(1));
    table.render(&mut terminal);
    for x in 1..=8 {
        let cell = terminal.cell_at(x, 2);
        assert!(cell.background_color == Color::Cyan);
        assert!(cell.foreground_color == Color::Black);
    }
    assert_eq!(terminal.cell_at(1, 2).character, 'c');
    assert!(terminal.cell_at(1, 1).background_color == Color::Default);
}

#[test]
fn widgets_expose_their_region_size() {
    let terminal = Terminal::new(12, 6);
    let area = terminal.area();
    let text = area.text(
        "x".to_string(),
        VerticalAlignment::Top,
        HorizontalAlignment::Left,
    );
    assert_eq!(text.width(), 12);
    assert_eq!(text.height(), 6);
    let area = Rectangle::new(None, 0, 0, 9, 4);
    let list = area.item_list(
        vec!["x".to_string()],
        VerticalAlignment::Top,
        HorizontalAlignment::Left,
    );
    assert_eq!(list.width(), 9);
    assert_eq!(list.height(), 4);
}

#[test]
fn bottom_aligned_text_ends_at_the_last_interior_row() {
    // one line in a 5-row region: the start row is height - 1 - 1 = 3,
    // flush against the bottom border
    let mut terminal = Terminal::new(6, 5);
    let area = terminal.area();
    let text = area.text(
        "x".to_string(),
        VerticalAlignment::Bottom,
        HorizontalAlignment::Left,
    );
    text.render(&mut terminal);
    assert_eq!(terminal.cell_at(1, 3).character, 'x');
    assert_eq!(terminal.cell_at(1, 2).character, ' ');
}

#[test]
fn bottom_aligned_items_end_at_the_last_interior_row() {
    let mut terminal = Terminal::new(6, 5);
    let area = terminal.area();
    let list = area.item_list(
        vec!["a".to_string()],
        VerticalAlignment::Bottom,
        HorizontalAlignment::Left,
    );
    list.render(&mut terminal);
    assert_eq!(terminal.cell_at(1, 3).character, 'a');
}

#[test]
fn empty_text_renders_only_the_frame() {
    let mut terminal = Terminal::new(6, 4);
    let area = terminal.area();
    let text = area.text(
        String::new(),
        VerticalAlignment::Center,
        HorizontalAlignment::Center,
    );
    assert_eq!(text.lines_count, 0);
    text.render(&mut terminal);
    for x in 1..=4 {
        for y in 1..=2 {
            assert_eq!(terminal.cell_at(x, y).character, ' ');
        }
    }
}

#[test]
fn table_rows_of_unequal_length_are_accepted() {
    let mut terminal = Terminal::new(10, 5);
    let area = terminal.area();
    let table = area.table(
        vec![
            vec!["ab".to_string()],
            vec!["c".to_string(), "dd".to_string()],
        ],
        VerticalAlignment::Top,
        HorizontalAlignment::Left,
    );
    assert_eq!(table.column_lengths, vec![2, 2]);
    table.render(&mut terminal);
    assert_eq!(terminal.cell_at(1, 1).character, 'a');
    assert_eq!(terminal.cell_at(2, 1).character, 'b');
    assert_eq!(terminal.cell_at(1, 2).character, 'c');
    assert_eq!(terminal.cell_at(4, 2).character, 'd');
    assert_eq!(terminal.cell_at(5, 2).character, 'd');
}

#[test]
fn widget_variants_share_one_render_interface() {
    let mut terminal = Terminal::new(12, 6);
    let screen = terminal.area();
    let (left, right) = screen.split_horizontally();
    let mut widgets: Vec<Widget> = vec![
        Widget::Text(left.text(
            "L".to_string(),
            VerticalAlignment::Top,
            HorizontalAlignment::Left,
        )),
        Widget::List(right.item_list(
            vec!["R".to_string()],
            VerticalAlignment::Top,
            HorizontalAlignment::Left,
        )),
    ];
    assert_eq!(widgets[0].width(), 6);
    assert_eq!(widgets[1].width(), 6);
    widgets[1].set_border_color(Color::Green);
    for widget in &widgets {
        widget.render(&mut terminal);
    }
    assert_eq!(terminal.cell_at(1, 1).character, 'L');
    assert_eq!(terminal.cell_at(7, 1).character, 'R');
    assert!(terminal.cell_at(6, 0).foreground_color == Color::Green);
}

#[test]
fn right_aligned_table_block_is_flush_with_the_right_border() {
    // column widths [3, 2] and one gap make a block of 6; in a width-12
    // region the block starts at column 12 - 1 - 6 = 5 and its last cell
    // is column 10, directly against the border
    let mut terminal = Terminal::new(12, 5);
    let area = terminal.area();
    let table = area.table(
        vec![
            vec!["a".to_string(), "bb".to_string()],
            vec!["ccc".to_string(), "d".to_string()],
        ],
        VerticalAlignment::Top,
        HorizontalAlignment::Right,
    );
    table.render(&mut terminal);
    assert_eq!(terminal.cell_at(5, 1).character, 'a');
    assert_eq!(terminal.cell_at(9, 1).character, 'b');
    assert_eq!(terminal.cell_at(10, 1).character, 'b');
    assert_eq!(terminal.cell_at(5, 2).character, 'c');
    assert_eq!(terminal.cell_at(7, 2).character, 'c');
    assert_eq!(terminal.cell_at(9, 2).character, 'd');
    assert_eq!(terminal.cell_at(11, 1).character, '\u{2502}');
}

#[test]
fn centered_table_block_splits_the_slack() {
    // block of 6 in a width-13 region: the block starts at (13 - 6) / 2 = 3
    let mut terminal = Terminal::new(13, 5);
    let area = terminal.area();
    let table = area.table(
        vec![
            vec!["a".to_string(), "bb".to_string()],
            vec!["ccc".to_string(), "d".to_string()],
        ],
        VerticalAlignment::Top,
        HorizontalAlignment::Center,
    );
    table.render(&mut terminal);
    assert_eq!(terminal.cell_at(3, 1).character, 'a');
    assert_eq!(terminal.cell_at(7, 1).character, 'b');
    assert_eq!(terminal.cell_at(8, 1).character, 'b');
}
