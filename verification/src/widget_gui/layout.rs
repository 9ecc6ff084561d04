use vstd::prelude::*;
use crate::widget_gui::{BoxContraint, FlexDir, Id, Pixel};

verus! {

/// What a widget answers when asked to lay itself out: either its size,
/// or a child that has to be laid out first, with the constraint for it.
pub enum LayoutResult {
    Size(Size),
    RequestChild(Id, BoxContraint),
}

/// Width and height of a widget in pixels.
#[derive(Debug, Clone, Copy, PartialEq, Eq, Structural)]
pub struct Size {
    pub pixel_w: Pixel,
    pub pixel_h: Pixel,
}

impl Size {
    /// The extent of this size along the given direction.
    pub open spec fn spec_from_flex(&self, flex_dir: FlexDir) -> Pixel {
        match flex_dir {
            FlexDir::X => self.pixel_w,
            FlexDir::Y => self.pixel_h,
        }
    }

    /// The width for `FlexDir::X`, the height for `FlexDir::Y`.
    #[verifier::when_used_as_spec(spec_from_flex)]
    pub fn from_flex(&self, flex_dir: FlexDir) -> (r: Pixel)
        ensures
            r == self.spec_from_flex(flex_dir),
    {
        match flex_dir {
            FlexDir::X => self.pixel_w,
            FlexDir::Y => self.pixel_h,
        }
    }
}

impl Default for Size {
    fn default() -> (r: Self)
        ensures
            r.pixel_w == 0,
            r.pixel_h == 0,
    {
        Size { pixel_w: 0, pixel_h: 0 }
    }
}

/// How the free space along a row or column is shared among flexible
/// children: the sum of their flex factors and the space per factor.
#[derive(Debug)]
pub struct FlexInfo {
    pub space_per_flex: Pixel,
    pub sum_flex_factor: Pixel,
}

/// Alignment of a widget inside its parent, per axis.
#[derive(Debug, Clone, Copy, PartialEq, Eq, Structural)]
pub struct Alignment {
    pub x: AlignmentX,
    pub y: AlignmentY,
}

impl Default for Alignment {
    fn default() -> (r: Self)
        ensures
            r.x == AlignmentX::Left,
            r.y == AlignmentY::Top,
    {
        Alignment { x: AlignmentX::Left, y: AlignmentY::Top }
    }
}

#[derive(Debug, Clone, Copy, PartialEq, Eq, Structural)]
pub enum AlignmentX {
    Left,
    Right,
    Center,
}

#[derive(Debug, Clone, Copy, PartialEq, Eq, Structural)]
pub enum AlignmentY {
    Top,
    Bottom,
    Center,
}

impl Default for AlignmentX {
    fn default() -> (r: Self)
        ensures
            r == AlignmentX::Left,
    {
        AlignmentX::Left
    }
}

impl Default for AlignmentY {
    fn default() -> (r: Self)
        ensures
            r == AlignmentY::Top,
    {
        AlignmentY::Top
    }
}

} // verus!
