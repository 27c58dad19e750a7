//! Coordinate spaces for layout: physical and flow-relative vectors,
//! rectangles and per-side quantities, and the writing-mode driven
//! conversions between the two spaces.

pub mod flow_relative;
pub mod physical;

use crate::length::{
    spec_add, spec_sub, spec_lp_relative_to, spec_lpa_relative_to, spec_auto_is, Length,
    LengthOrAuto, LengthOrPercentage, LengthOrPercentageOrAuto,
};
use vstd::prelude::*;

verus! {

/// <https://drafts.csswg.org/css-writing-modes/#block-flow>
#[derive(Clone, Copy, Debug, PartialEq, Eq, Structural)]
pub enum WritingMode {
    HorizontalTb,
    VerticalRl,
    VerticalLr,
    SidewaysRl,
    SidewaysLr,
}

/// <https://drafts.csswg.org/css-writing-modes/#inline-base-direction>
#[derive(Clone, Copy, Debug, PartialEq, Eq, Structural)]
pub enum Direction {
    Ltr,
    Rtl,
}

/// The one writing mode and direction this engine supports end to end.
pub open spec fn horizontal_tb_ltr() -> (WritingMode, Direction) {
    (WritingMode::HorizontalTb, Direction::Ltr)
}

impl<T: Copy> physical::Vec2<T> {
    /// Map a physical size onto the inline and block axes of the given mode.
    ///
    /// <https://drafts.csswg.org/css-writing-modes/#logical-to-physical>
    pub fn size_to_flow_relative(&self, mode: (WritingMode, Direction)) -> (r: flow_relative::Vec2<
        T,
    >)
        ensures
            mode.0 == WritingMode::HorizontalTb ==> r == (flow_relative::Vec2 {
                inline: self.x,
                block: self.y,
            }),
            mode.0 != WritingMode::HorizontalTb ==> r == (flow_relative::Vec2 {
                inline: self.y,
                block: self.x,
            }),
    {
        if let (WritingMode::HorizontalTb, _) = mode {
            flow_relative::Vec2 { inline: self.x, block: self.y }
        } else {
            flow_relative::Vec2 { inline: self.y, block: self.x }
        }
    }
}

impl<T: Copy> flow_relative::Vec2<T> {
    /// Map a flow-relative size back onto physical axes for the given mode.
    ///
    /// <https://drafts.csswg.org/css-writing-modes/#logical-to-physical>
    pub fn size_to_physical(&self, mode: (WritingMode, Direction)) -> (r: physical::Vec2<T>)
        ensures
            mode.0 == WritingMode::HorizontalTb ==> r == (physical::Vec2 {
                x: self.inline,
                y: self.block,
            }),
            mode.0 != WritingMode::HorizontalTb ==> r == (physical::Vec2 {
                x: self.block,
                y: self.inline,
            }),
    {
        if let (WritingMode::HorizontalTb, _) = mode {
            physical::Vec2 { x: self.inline, y: self.block }
        } else {
            physical::Vec2 { x: self.block, y: self.inline }
        }
    }
}

/// Which physical sides the flow-relative sides of `mode` fall on.
///
/// <https://drafts.csswg.org/css-writing-modes/#logical-to-physical>
pub open spec fn spec_to_flow_relative<T>(
    s: physical::Sides<T>,
    mode: (WritingMode, Direction),
) -> flow_relative::Sides<T> {
    let (bs, be) = match mode.0 {
        WritingMode::HorizontalTb => (s.top, s.bottom),
        WritingMode::VerticalRl | WritingMode::SidewaysRl => (s.right, s.left),
        WritingMode::VerticalLr | WritingMode::SidewaysLr => (s.left, s.right),
    };
    let (is, ie) = match mode {
        (WritingMode::HorizontalTb, Direction::Ltr) => (s.left, s.right),
        (WritingMode::HorizontalTb, Direction::Rtl) => (s.right, s.left),
        (WritingMode::VerticalRl, Direction::Ltr)
        | (WritingMode::SidewaysRl, Direction::Ltr)
        | (WritingMode::VerticalLr, Direction::Ltr)
        | (WritingMode::SidewaysLr, Direction::Rtl) => (s.top, s.bottom),
        (WritingMode::VerticalRl, Direction::Rtl)
        | (WritingMode::SidewaysRl, Direction::Rtl)
        | (WritingMode::VerticalLr, Direction::Rtl)
        | (WritingMode::SidewaysLr, Direction::Ltr) => (s.bottom, s.top),
    };
    flow_relative::Sides { inline_start: is, inline_end: ie, block_start: bs, block_end: be }
}

impl<T: Copy> physical::Sides<T> {
    /// Reinterpret physical sides as flow-relative sides under `mode`.
    pub fn to_flow_relative(&self, mode: (WritingMode, Direction)) -> (r: flow_relative::Sides<T>)
        ensures
            r == spec_to_flow_relative(*self, mode),
    {
        let (bs, be) = match mode.0 {
            WritingMode::HorizontalTb => (self.top, self.bottom),
            WritingMode::VerticalRl | WritingMode::SidewaysRl => (self.right, self.left),
            WritingMode::VerticalLr | WritingMode::SidewaysLr => (self.left, self.right),
        };
        let (is, ie) = match mode {
            (WritingMode::HorizontalTb, Direction::Ltr) => (self.left, self.right),
            (WritingMode::HorizontalTb, Direction::Rtl) => (self.right, self.left),
            (WritingMode::VerticalRl, Direction::Ltr)
            | (WritingMode::SidewaysRl, Direction::Ltr)
            | (WritingMode::VerticalLr, Direction::Ltr)
            | (WritingMode::SidewaysLr, Direction::Rtl) => (self.top, self.bottom),
            (WritingMode::VerticalRl, Direction::Rtl)
            | (WritingMode::SidewaysRl, Direction::Rtl)
            | (WritingMode::VerticalLr, Direction::Rtl)
            | (WritingMode::SidewaysLr, Direction::Ltr) => (self.bottom, self.top),
        };
        flow_relative::Sides { inline_start: is, inline_end: ie, block_start: bs, block_end: be }
    }
}

impl<T: Copy> flow_relative::Sides<T> {
    /// Apply `f` to each side.
    pub fn map<U, F: Fn(&T) -> U>(&self, f: F) -> (r: flow_relative::Sides<U>)
        requires
            forall|x: &T| call_requires(f, (x,)),
        ensures
            call_ensures(f, (&self.inline_start,), r.inline_start),
            call_ensures(f, (&self.inline_end,), r.inline_end),
            call_ensures(f, (&self.block_start,), r.block_start),
            call_ensures(f, (&self.block_end,), r.block_end),
    {
        flow_relative::Sides {
            inline_start: f(&self.inline_start),
            inline_end: f(&self.inline_end),
            block_start: f(&self.block_start),
            block_end: f(&self.block_end),
        }
    }

    /// Apply `inline_f` to the inline sides and `block_f` to the block sides.
    pub fn map_inline_and_block_axes<U, F: Fn(&T) -> U, G: Fn(&T) -> U>(
        &self,
        inline_f: F,
        block_f: G,
    ) -> (r: flow_relative::Sides<U>)
        requires
            forall|x: &T| call_requires(inline_f, (x,)),
            forall|x: &T| call_requires(block_f, (x,)),
        ensures
            call_ensures(inline_f, (&self.inline_start,), r.inline_start),
            call_ensures(inline_f, (&self.inline_end,), r.inline_end),
            call_ensures(block_f, (&self.block_start,), r.block_start),
            call_ensures(block_f, (&self.block_end,), r.block_end),
    {
        flow_relative::Sides {
            inline_start: inline_f(&self.inline_start),
            inline_end: inline_f(&self.inline_end),
            block_start: block_f(&self.block_start),
            block_end: block_f(&self.block_end),
        }
    }

    /// The two inline-axis sides as a corner-offset vector start.
    pub fn start_corner(&self) -> (r: flow_relative::Vec2<T>)
        ensures
            r == (flow_relative::Vec2 { inline: self.inline_start, block: self.block_start }),
    {
        flow_relative::Vec2 { inline: self.inline_start, block: self.block_start }
    }
}

impl flow_relative::Sides<Length> {
    /// Sum of the two inline-axis sides.
    pub fn inline_sum(&self) -> (r: Length)
        ensures
            r == spec_add(self.inline_start, self.inline_end),
    {
        self.inline_start.add(self.inline_end)
    }

    /// Sum of the two block-axis sides.
    pub fn block_sum(&self) -> (r: Length)
        ensures
            r == spec_add(self.block_start, self.block_end),
    {
        self.block_start.add(self.block_end)
    }

    /// Side-by-side sum of two sets of sides.
    pub fn add(&self, other: &flow_relative::Sides<Length>) -> (r: flow_relative::Sides<Length>)
        ensures
            r == spec_sides_add(*self, *other),
    {
        flow_relative::Sides {
            inline_start: self.inline_start.add(other.inline_start),
            inline_end: self.inline_end.add(other.inline_end),
            block_start: self.block_start.add(other.block_start),
            block_end: self.block_end.add(other.block_end),
        }
    }
}

/// Side-by-side saturating sum.
pub open spec fn spec_sides_add(
    a: flow_relative::Sides<Length>,
    b: flow_relative::Sides<Length>,
) -> flow_relative::Sides<Length> {
    flow_relative::Sides {
        inline_start: spec_add(a.inline_start, b.inline_start),
        inline_end: spec_add(a.inline_end, b.inline_end),
        block_start: spec_add(a.block_start, b.block_start),
        block_end: spec_add(a.block_end, b.block_end),
    }
}

/// Each side resolved against `basis` (for padding and border widths).
pub open spec fn spec_sides_lp_relative_to(
    s: flow_relative::Sides<LengthOrPercentage>,
    basis: Length,
) -> flow_relative::Sides<Length> {
    flow_relative::Sides {
        inline_start: spec_lp_relative_to(s.inline_start, basis),
        inline_end: spec_lp_relative_to(s.inline_end, basis),
        block_start: spec_lp_relative_to(s.block_start, basis),
        block_end: spec_lp_relative_to(s.block_end, basis),
    }
}

/// Each side resolved against `basis` (for margins, which may stay `auto`).
pub open spec fn spec_sides_lpa_relative_to(
    s: flow_relative::Sides<LengthOrPercentageOrAuto>,
    basis: Length,
) -> flow_relative::Sides<LengthOrAuto> {
    flow_relative::Sides {
        inline_start: spec_lpa_relative_to(s.inline_start, basis),
        inline_end: spec_lpa_relative_to(s.inline_end, basis),
        block_start: spec_lpa_relative_to(s.block_start, basis),
        block_end: spec_lpa_relative_to(s.block_end, basis),
    }
}

/// Each side with `auto` read as `auto_value`.
pub open spec fn spec_sides_auto_is(
    s: flow_relative::Sides<LengthOrAuto>,
    auto_value: Length,
) -> flow_relative::Sides<Length> {
    flow_relative::Sides {
        inline_start: spec_auto_is(s.inline_start, auto_value),
        inline_end: spec_auto_is(s.inline_end, auto_value),
        block_start: spec_auto_is(s.block_start, auto_value),
        block_end: spec_auto_is(s.block_end, auto_value),
    }
}

impl flow_relative::Sides<LengthOrPercentage> {
    /// Resolve percentage sides against `basis`.
    pub fn percentages_relative_to(&self, basis: Length) -> (r: flow_relative::Sides<Length>)
        ensures
            r == spec_sides_lp_relative_to(*self, basis),
    {
        flow_relative::Sides {
            inline_start: self.inline_start.percentage_relative_to(basis),
            inline_end: self.inline_end.percentage_relative_to(basis),
            block_start: self.block_start.percentage_relative_to(basis),
            block_end: self.block_end.percentage_relative_to(basis),
        }
    }
}

impl flow_relative::Sides<LengthOrPercentageOrAuto> {
    /// Resolve percentage sides against `basis`; `auto` stays `auto`.
    pub fn percentages_relative_to(&self, basis: Length) -> (r: flow_relative::Sides<LengthOrAuto>)
        ensures
            r == spec_sides_lpa_relative_to(*self, basis),
    {
        flow_relative::Sides {
            inline_start: self.inline_start.percentage_relative_to(basis),
            inline_end: self.inline_end.percentage_relative_to(basis),
            block_start: self.block_start.percentage_relative_to(basis),
            block_end: self.block_end.percentage_relative_to(basis),
        }
    }
}

impl flow_relative::Sides<LengthOrAuto> {
    /// Read every remaining `auto` side as `auto_value`.
    pub fn auto_is(&self, auto_value: Length) -> (r: flow_relative::Sides<Length>)
        ensures
            r == spec_sides_auto_is(*self, auto_value),
    {
        flow_relative::Sides {
            inline_start: self.inline_start.auto_is(auto_value),
            inline_end: self.inline_end.auto_is(auto_value),
            block_start: self.block_start.auto_is(auto_value),
            block_end: self.block_end.auto_is(auto_value),
        }
    }
}

impl flow_relative::Rect<Length> {
    /// Grow this rectangle by the given sides on every edge.
    pub fn inflate(&self, sides: &flow_relative::Sides<Length>) -> (r: flow_relative::Rect<Length>)
        ensures
            r.start_corner.inline == spec_sub(self.start_corner.inline, sides.inline_start),
            r.start_corner.block == spec_sub(self.start_corner.block, sides.block_start),
            r.size.inline == spec_add(self.size.inline, spec_add(sides.inline_start, sides.inline_end)),
            r.size.block == spec_add(self.size.block, spec_add(sides.block_start, sides.block_end)),
    {
        flow_relative::Rect {
            start_corner: flow_relative::Vec2 {
                inline: self.start_corner.inline.sub(sides.inline_start),
                block: self.start_corner.block.sub(sides.block_start),
            },
            size: flow_relative::Vec2 {
                inline: self.size.inline.add(sides.inline_sum()),
                block: self.size.block.add(sides.block_sum()),
            },
        }
    }

    /// Convert to physical coordinates.
    ///
    /// Only the horizontal-tb / ltr mode is supported end to end; any other
    /// mode is an unsupported configuration and is excluded up front.
    pub fn to_physical(
        &self,
        mode: (WritingMode, Direction),
        _containing_block: &physical::Rect<Length>,
    ) -> (r: physical::Rect<Length>)
        requires
            mode == horizontal_tb_ltr(),
        ensures
            r.top_left.x == self.start_corner.inline,
            r.top_left.y == self.start_corner.block,
            r.size.x == self.size.inline,
            r.size.y == self.size.block,
    {
        physical::Rect {
            top_left: physical::Vec2 { x: self.start_corner.inline, y: self.start_corner.block },
            size: self.size.size_to_physical(mode),
        }
    }
}

} // verus!
