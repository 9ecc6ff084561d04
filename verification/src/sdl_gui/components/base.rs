use vstd::prelude::*;

verus! {

/// The mouse button of a click.
#[derive(Debug, Clone, Copy, PartialEq, Eq, Structural)]
pub enum ClickType {
    Left,
    Right,
}

/// A key press: the SDL keycode and the bits of the held modifier keys.
#[derive(Debug, Clone, Copy, PartialEq, Eq, Structural)]
pub struct KeyInfo {
    pub keycode: i32,
    pub keymod: u16,
}

/// What happens to a component: a click at a window point, the pointer
/// coming over it, the pointer leaving it, or a key press while it has
/// the focus.
#[derive(Debug, Clone, Copy, PartialEq, Eq, Structural)]
pub enum ComponentEvent {
    Clicked(ClickType, i32, i32),
    Hover,
    HoverEnd,
    KeyboardInput(KeyInfo),
}

/// The stacking level of a component: higher levels lie on top.
pub type Level = u32;

/// Whether a point lies on a component, and at which level.
#[derive(Debug, Clone, Copy, PartialEq, Eq, Structural)]
pub enum OnTop {
    No,
    OnTop(Level),
}

} // verus!
