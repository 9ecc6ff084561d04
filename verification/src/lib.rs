//! Verified core of a small OpenGL/SDL game and GUI toolkit.
//!
//! The library holds the parts of the toolkit that decide things:
//! the widget layout engine with its flex rows and columns, hit
//! testing and event routing of the widget GUI, the id-keyed data
//! store of the 3D scene, and the parser of AngelCode `.fnt` font
//! descriptions. Rendering, window handling and file loading live in
//! the application crate around it.
//!
//! Pixel arithmetic (`Pixel` is `i32`) follows two's complement
//! wrapping on overflow, the behaviour of an optimised build; the
//! contracts state the wrapped values, and the laws state that they are
//! the mathematical values whenever those fit in an `i32`.
use vstd::prelude::*;

pub mod scene_3d;
pub mod sdl_gui;
pub mod text_rendering;
pub mod widget_gui;

verus! {

} // verus!
