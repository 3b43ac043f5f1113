use vstd::prelude::*;

verus! {

/// The closed set of colors a cell can carry. Each color maps to one fixed
/// ANSI escape sequence for the foreground and a distinct one for the
/// background.
#[derive(Clone, Copy, PartialEq, Eq, Structural, Debug)]
pub enum Color {
    Black,
    Cyan,
    /// The terminal's own default color.
    Default,
    Green,
}

/// The escape sequence that selects `c` as the foreground color.
pub open spec fn foreground_escape(c: Color) -> Seq<char> {
    match c {
        Color::Black => seq!['\u{1b}', '[', '3', '0', 'm'],
        Color::Cyan => seq!['\u{1b}', '[', '3', '6', 'm'],
        Color::Default => seq!['\u{1b}', '[', '3', '9', 'm'],
        Color::Green => seq!['\u{1b}', '[', '3', '2', 'm'],
    }
}

/// The escape sequence that selects `c` as the background color.
pub open spec fn background_escape(c: Color) -> Seq<char> {
    match c {
        Color::Black => seq!['\u{1b}', '[', '4', '0', 'm'],
        Color::Cyan => seq!['\u{1b}', '[', '4', '6', 'm'],
        Color::Default => seq!['\u{1b}', '[', '4', '9', 'm'],
        Color::Green => seq!['\u{1b}', '[', '4', '2', 'm'],
    }
}

impl Color {
    /// Appends the escape sequence selecting `self` as the foreground color.
    pub fn push_foreground(self, out: &mut Vec<char>)
        ensures
            final(out)@ == old(out)@ + foreground_escape(self),
    {
        out.push('\u{1b}');
        out.push('[');
        out.push('3');
        match self {
            Color::Black => out.push('0'),
            Color::Cyan => out.push('6'),
            Color::Default => out.push('9'),
            Color::Green => out.push('2'),
        }
        out.push('m');
        proof {
            assert(out@ =~= old(out)@ + foreground_escape(self));
        }
    }

    /// Appends the escape sequence selecting `self` as the background color.
    pub fn push_background(self, out: &mut Vec<char>)
        ensures
            final(out)@ == old(out)@ + background_escape(self),
    {
        out.push('\u{1b}');
        out.push('[');
        out.push('4');
        match self {
            Color::Black => out.push('0'),
            Color::Cyan => out.push('6'),
            Color::Default => out.push('9'),
            Color::Green => out.push('2'),
        }
        out.push('m');
        proof {
            assert(out@ =~= old(out)@ + background_escape(self));
        }
    }
}

} // verus!
