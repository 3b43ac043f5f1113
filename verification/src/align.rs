use vstd::prelude::*;

verus! {

/// Where a widget's content block sits inside its region along the x axis.
#[derive(Clone, Copy, PartialEq, Eq, Structural, Debug)]
pub enum HorizontalAlignment {
    Left,
    Right,
    Center,
}

/// Where a widget's content block sits inside its region along the y axis.
#[derive(Clone, Copy, PartialEq, Eq, Structural, Debug)]
pub enum VerticalAlignment {
    Top,
    Bottom,
    Center,
}

} // verus!
