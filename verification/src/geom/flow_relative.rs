//! Geometry in flow-relative (writing-mode aware) coordinates: the `inline`
//! axis runs along a line of text, the `block` axis stacks lines and blocks.

use vstd::prelude::*;

verus! {

/// A flow-relative point or size.
#[derive(Clone, Copy, Debug, PartialEq, Eq, Structural)]
pub struct Vec2<T> {
    pub inline: T,
    pub block: T,
}

/// A flow-relative rectangle.
#[derive(Clone, Copy, Debug, PartialEq, Eq, Structural)]
pub struct Rect<T> {
    pub start_corner: Vec2<T>,
    pub size: Vec2<T>,
}

/// One value for each flow-relative side of a box.
#[derive(Clone, Copy, Debug, PartialEq, Eq, Structural)]
pub struct Sides<T> {
    pub inline_start: T,
    pub inline_end: T,
    pub block_start: T,
    pub block_end: T,
}

} // verus!
