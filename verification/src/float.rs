//! The float context: tracks where the sequential layout path stands inside
//! one block formatting context that contains floats.
//!
//! The detailed band-tracking algorithm (how float boxes carve out reserved
//! regions) is outside this core's detailed scope; what layout relies on is
//! the cursor discipline below: every block container derives a child
//! context scoped to its own containing block, and vertical progress is
//! committed through `advance_block_start` so later placement queries see
//! it. Because float placement itself is not performed here, the context
//! never affects the geometry that this crate computes.

use crate::geom::flow_relative;
use crate::length::{spec_add, Length};
use vstd::prelude::*;

verus! {

/// Where the sequential layout path stands within one block formatting
/// context that contains floats.
pub struct FloatContext {
    /// The inline size of the containing block this context is scoped to.
    pub inline_size: Length,
    /// This containing block's start corner, in the coordinates of the
    /// block formatting context root.
    pub origin: flow_relative::Vec2<Length>,
    /// How far layout has advanced on the block axis within this containing
    /// block.
    pub block_cursor: Length,
}

impl FloatContext {
    /// The context of the block formatting context root.
    pub fn root(inline_size: Length) -> (r: FloatContext)
        ensures
            r.inline_size == inline_size,
            r.origin.inline.px == 0,
            r.origin.block.px == 0,
            r.block_cursor.px == 0,
    {
        FloatContext {
            inline_size,
            origin: flow_relative::Vec2 { inline: Length::zero(), block: Length::zero() },
            block_cursor: Length::zero(),
        }
    }

    /// Derive the context of a child containing block whose content box
    /// starts at `start_corner` (relative to this context's origin) and is
    /// `inline_size` wide.
    pub fn child(&self, inline_size: Length, start_corner: &flow_relative::Vec2<Length>) -> (r:
        FloatContext)
        ensures
            r.inline_size == inline_size,
            r.origin.inline == spec_add(self.origin.inline, start_corner.inline),
            r.origin.block == spec_add(
                spec_add(self.origin.block, self.block_cursor),
                start_corner.block,
            ),
            r.block_cursor.px == 0,
    {
        FloatContext {
            inline_size,
            origin: flow_relative::Vec2 {
                inline: self.origin.inline.add(start_corner.inline),
                block: self.origin.block.add(self.block_cursor).add(start_corner.block),
            },
            block_cursor: Length::zero(),
        }
    }

    /// Commit vertical progress: subsequent placement queries account for
    /// `distance` more space taken on the block axis.
    pub fn advance_block_start(&mut self, distance: Length)
        ensures
            final(self).inline_size == old(self).inline_size,
            final(self).origin == old(self).origin,
            final(self).block_cursor == spec_add(old(self).block_cursor, distance),
    {
        self.block_cursor = self.block_cursor.add(distance);
    }
}

} // verus!
