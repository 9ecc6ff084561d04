use vstd::prelude::*;

verus! {

/// What a layout node does with space left over: grow into it, or keep
/// to its content.
#[derive(Debug, Clone, Copy, PartialEq, Eq, Structural)]
pub enum OnFill {
    Expand,
    Shrink,
}

} // verus!
