use vstd::prelude::*;

verus! {

/// How large text is drawn: the small default, or a pixel size.
#[derive(Debug, Clone, Copy, PartialEq, Eq, Structural)]
pub enum TextSize {
    Small,
    Scaled(i32),
}

/// Where text stands in its box, across and down.
#[derive(Debug, Clone, Copy, PartialEq, Eq, Structural)]
pub struct TextAlignment {
    pub x: TextAlignmentX,
    pub y: TextAlignmentY,
}

impl Default for TextAlignment {
    fn default() -> (r: Self)
        ensures
            r == (TextAlignment { x: TextAlignmentX::Center, y: TextAlignmentY::Center }),
    {
        TextAlignment { x: TextAlignmentX::default(), y: TextAlignmentY::default() }
    }
}

/// Where text stands across its box.
#[derive(Debug, Clone, Copy, PartialEq, Eq, Structural)]
pub enum TextAlignmentX {
    Left,
    Center,
    Right,
}

impl Default for TextAlignmentX {
    fn default() -> (r: Self)
        ensures
            r == TextAlignmentX::Center,
    {
        TextAlignmentX::Center
    }
}

/// Where text stands down its box.
#[derive(Debug, Clone, Copy, PartialEq, Eq, Structural)]
pub enum TextAlignmentY {
    Top,
    Center,
    Bottom,
}

impl Default for TextAlignmentY {
    fn default() -> (r: Self)
        ensures
            r == TextAlignmentY::Center,
    {
        TextAlignmentY::Center
    }
}

} // verus!
