use tinytui::HardwrappingText;

fn collect_lines(text: &str, width: usize) -> Vec<String> {
    let chars: Vec<char> = text.chars().collect();
    let mut wrapper = HardwrappingText::new(&chars, width);
    let mut lines: Vec<String> = Vec::new();
    while let Some(line) = wrapper.next() {
        lines.push(line.into_iter().collect());
    }
    lines
}

#[test]
fn break_inside_window_is_consumed_but_not_emitted() {
    let lines = collect_lines("ab\ncd", 10);
    assert_eq!(lines.len(), 2);
    assert_eq!(lines[0], "ab");
    assert_eq!(lines[1], "cd");
}

#[test]
fn no_breaks_yields_ceil_len_over_width_lines() {
    let lines = collect_lines("abcdef", 2);
    assert_eq!(lines.len(), 3);
    assert_eq!(lines, vec!["ab", "cd", "ef"]);

    let lines = collect_lines("abcde", 2);
    assert_eq!(lines.len(), 3);
    assert_eq!(lines, vec!["ab", "cd", "e"]);
    for line in &lines {
        assert!(line.chars().count() <= 2);
    }
    let rebuilt: String = lines.concat();
    assert_eq!(rebuilt, "abcde");
}

#[test]
fn break_outside_window_is_not_consumed() {
    // The break at position 2 falls outside every 1-wide window until the
    // wrapper reaches it, so no character is lost.
    let lines = collect_lines("ab\ncd", 1);
    assert_eq!(lines, vec!["a", "b", "c", "d"]);
}

#[test]
fn empty_text_yields_no_lines() {
    let lines = collect_lines("", 5);
    assert_eq!(lines.len(), 0);
}

#[test]
fn break_at_window_edge_is_consumed() {
    let lines = collect_lines("ab\ncd", 2);
    assert_eq!(lines, vec!["ab", "cd"]);
}

#[test]
fn consecutive_breaks_yield_empty_lines() {
    let lines = collect_lines("a\n\nb", 5);
    assert_eq!(lines, vec!["a", "", "b"]);
}

#[test]
fn exact_multiple_of_width_has_no_trailing_line() {
    let lines = collect_lines("abcd", 2);
    assert_eq!(lines, vec!["ab", "cd"]);
}
