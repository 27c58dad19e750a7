//! Computed style snapshots.
//!
//! Style resolution (CSS parsing, selector matching, the cascade) happens
//! outside this crate; layout only ever sees an immutable, fully resolved
//! `ComputedValues` snapshot per element, shared behind an `Arc`.

use crate::geom::{
    flow_relative, horizontal_tb_ltr, physical, spec_to_flow_relative, Direction, WritingMode,
};
use crate::length::{Length, LengthOrPercentage, LengthOrPercentageOrAuto};
use std::sync::Arc;
use vstd::prelude::*;

verus! {

/// <https://drafts.csswg.org/css-display/#outer-role>
#[derive(Clone, Copy, Debug, PartialEq, Eq, Structural)]
pub enum DisplayOutside {
    Block,
    Inline,
}

/// <https://drafts.csswg.org/css-display/#inner-model>
#[derive(Clone, Copy, Debug, PartialEq, Eq, Structural)]
pub enum DisplayInside {
    Flow,
}

/// The computed `display` property.
#[derive(Clone, Copy, Debug, PartialEq, Eq, Structural)]
pub enum Display {
    /// `display: none`: the element generates no box at all.
    NoBox,
    Contents,
    Other { outside: DisplayOutside, inside: DisplayInside },
}

/// The computed `position` property.
#[derive(Clone, Copy, Debug, PartialEq, Eq, Structural)]
pub enum Position {
    Static,
    Relative,
    Absolute,
}

impl Position {
    pub open spec fn spec_is_absolutely_positioned(self) -> bool {
        self == Position::Absolute
    }

    pub open spec fn spec_is_relatively_positioned(self) -> bool {
        self == Position::Relative
    }

    pub fn is_absolutely_positioned(&self) -> (r: bool)
        ensures
            r == self.spec_is_absolutely_positioned(),
    {
        matches!(*self, Position::Absolute)
    }

    pub fn is_relatively_positioned(&self) -> (r: bool)
        ensures
            r == self.spec_is_relatively_positioned(),
    {
        matches!(*self, Position::Relative)
    }
}

/// The computed `float` property.
#[derive(Clone, Copy, Debug, PartialEq, Eq, Structural)]
pub enum Float {
    NoFloat,
    Left,
    Right,
}

impl Float {
    pub open spec fn spec_is_floating(self) -> bool {
        self != Float::NoFloat
    }

    pub fn is_floating(&self) -> (r: bool)
        ensures
            r == self.spec_is_floating(),
    {
        !matches!(*self, Float::NoFloat)
    }
}

/// The computed style of one border's line style, reduced to what layout
/// needs: whether the border is drawn at all.
#[derive(Clone, Copy, Debug, PartialEq, Eq, Structural)]
pub enum BorderStyle {
    NoLine,
    Solid,
}

/// An immutable computed style snapshot for one element.
///
/// Holds exactly the properties that box construction and flow layout read.
/// Snapshots are shared by reference count and never mutated after
/// construction, so they can be read from many layout tasks at once.
#[derive(Clone, Copy, Debug, PartialEq, Eq, Structural)]
pub struct ComputedValues {
    pub display: Display,
    pub position: Position,
    pub float: Float,
    pub width: LengthOrPercentageOrAuto,
    pub height: LengthOrPercentageOrAuto,
    pub padding: physical::Sides<LengthOrPercentage>,
    pub border_width: physical::Sides<LengthOrPercentage>,
    pub border_style: physical::Sides<BorderStyle>,
    pub margin: physical::Sides<LengthOrPercentageOrAuto>,
    pub inset: physical::Sides<LengthOrPercentageOrAuto>,
}

/// The initial value of every property this crate models.
pub open spec fn spec_initial_style() -> ComputedValues {
    ComputedValues {
        display: Display::Other { outside: DisplayOutside::Inline, inside: DisplayInside::Flow },
        position: Position::Static,
        float: Float::NoFloat,
        width: LengthOrPercentageOrAuto::Auto,
        height: LengthOrPercentageOrAuto::Auto,
        padding: physical::Sides {
            top: LengthOrPercentage::Length(Length { px: 0 }),
            left: LengthOrPercentage::Length(Length { px: 0 }),
            bottom: LengthOrPercentage::Length(Length { px: 0 }),
            right: LengthOrPercentage::Length(Length { px: 0 }),
        },
        border_width: physical::Sides {
            top: LengthOrPercentage::Length(Length { px: 0 }),
            left: LengthOrPercentage::Length(Length { px: 0 }),
            bottom: LengthOrPercentage::Length(Length { px: 0 }),
            right: LengthOrPercentage::Length(Length { px: 0 }),
        },
        border_style: physical::Sides {
            top: BorderStyle::NoLine,
            left: BorderStyle::NoLine,
            bottom: BorderStyle::NoLine,
            right: BorderStyle::NoLine,
        },
        margin: physical::Sides {
            top: LengthOrPercentageOrAuto::Length(Length { px: 0 }),
            left: LengthOrPercentageOrAuto::Length(Length { px: 0 }),
            bottom: LengthOrPercentageOrAuto::Length(Length { px: 0 }),
            right: LengthOrPercentageOrAuto::Length(Length { px: 0 }),
        },
        inset: physical::Sides {
            top: LengthOrPercentageOrAuto::Auto,
            left: LengthOrPercentageOrAuto::Auto,
            bottom: LengthOrPercentageOrAuto::Auto,
            right: LengthOrPercentageOrAuto::Auto,
        },
    }
}

/// A border width forced to zero wherever the border style draws nothing.
pub open spec fn spec_fixed_border_width(
    width: LengthOrPercentage,
    style: BorderStyle,
) -> LengthOrPercentage {
    if style == BorderStyle::NoLine {
        LengthOrPercentage::Length(Length { px: 0 })
    } else {
        width
    }
}

/// Relies on std's Arc::clone: the clone shares the pointee, so both handles
/// carry the same computed style.
#[verifier::external_body]
pub fn clone_style(s: &Arc<ComputedValues>) -> (r: Arc<ComputedValues>)
    ensures
        r == *s,
{
    s.clone()
}

impl ComputedValues {
    /// A snapshot holding the initial value of every property.
    pub fn initial() -> (r: Arc<ComputedValues>)
        ensures
            *r == spec_initial_style(),
    {
        Arc::new(spec_initial_style_exec())
    }

    /// The style of an anonymous box.
    ///
    /// Every property this crate models is a reset property, so the result
    /// holds initial values whatever the parent is; the parameter stands for
    /// the inherited properties (fonts and the like) that live outside this
    /// model.
    pub fn anonymous_inheriting_from(_parent_style: Option<&ComputedValues>) -> (r: Arc<
        ComputedValues,
    >)
        ensures
            *r == spec_initial_style(),
    {
        ComputedValues::initial()
    }

    /// Zero out border widths whose border style draws nothing.
    pub fn post_cascade_fixups(&mut self)
        ensures
            *final(self) == (ComputedValues {
                border_width: physical::Sides {
                    top: spec_fixed_border_width(old(self).border_width.top, old(self).border_style.top),
                    left: spec_fixed_border_width(
                        old(self).border_width.left,
                        old(self).border_style.left,
                    ),
                    bottom: spec_fixed_border_width(
                        old(self).border_width.bottom,
                        old(self).border_style.bottom,
                    ),
                    right: spec_fixed_border_width(
                        old(self).border_width.right,
                        old(self).border_style.right,
                    ),
                },
                ..*old(self)
            }),
    {
        self.border_width = physical::Sides {
            top: fixed_border_width(self.border_width.top, self.border_style.top),
            left: fixed_border_width(self.border_width.left, self.border_style.left),
            bottom: fixed_border_width(self.border_width.bottom, self.border_style.bottom),
            right: fixed_border_width(self.border_width.right, self.border_style.right),
        };
    }

    /// The writing mode and direction this style lays out in.
    ///
    /// Only horizontal-tb / ltr is supported end to end; other combinations
    /// are rejected as unsupported configurations before any geometry is
    /// produced.
    pub fn writing_mode(&self) -> (r: (WritingMode, Direction))
        ensures
            r == horizontal_tb_ltr(),
    {
        (WritingMode::HorizontalTb, Direction::Ltr)
    }

    /// The computed `width` and `height`, on flow-relative axes.
    pub fn box_size(&self) -> (r: flow_relative::Vec2<LengthOrPercentageOrAuto>)
        ensures
            r == (flow_relative::Vec2 { inline: self.width, block: self.height }),
    {
        let mode = self.writing_mode();
        (physical::Vec2 { x: self.width, y: self.height }).size_to_flow_relative(mode)
    }

    /// The computed padding widths, on flow-relative sides.
    pub fn padding(&self) -> (r: flow_relative::Sides<LengthOrPercentage>)
        ensures
            r == spec_to_flow_relative(self.padding, horizontal_tb_ltr()),
    {
        let mode = self.writing_mode();
        self.padding.to_flow_relative(mode)
    }

    /// The computed border widths, on flow-relative sides.
    pub fn border_width(&self) -> (r: flow_relative::Sides<LengthOrPercentage>)
        ensures
            r == spec_to_flow_relative(self.border_width, horizontal_tb_ltr()),
    {
        let mode = self.writing_mode();
        self.border_width.to_flow_relative(mode)
    }

    /// The computed margins, on flow-relative sides.
    pub fn margin(&self) -> (r: flow_relative::Sides<LengthOrPercentageOrAuto>)
        ensures
            r == spec_to_flow_relative(self.margin, horizontal_tb_ltr()),
    {
        let mode = self.writing_mode();
        self.margin.to_flow_relative(mode)
    }

    /// The computed inset properties (`top` and friends), on flow-relative
    /// sides.
    pub fn inset(&self) -> (r: flow_relative::Sides<LengthOrPercentageOrAuto>)
        ensures
            r == spec_to_flow_relative(self.inset, horizontal_tb_ltr()),
    {
        let mode = self.writing_mode();
        self.inset.to_flow_relative(mode)
    }
}

fn spec_initial_style_exec() -> (r: ComputedValues)
    ensures
        r == spec_initial_style(),
{
    ComputedValues {
        display: Display::Other { outside: DisplayOutside::Inline, inside: DisplayInside::Flow },
        position: Position::Static,
        float: Float::NoFloat,
        width: LengthOrPercentageOrAuto::Auto,
        height: LengthOrPercentageOrAuto::Auto,
        padding: physical::Sides {
            top: LengthOrPercentage::Length(Length { px: 0 }),
            left: LengthOrPercentage::Length(Length { px: 0 }),
            bottom: LengthOrPercentage::Length(Length { px: 0 }),
            right: LengthOrPercentage::Length(Length { px: 0 }),
        },
        border_width: physical::Sides {
            top: LengthOrPercentage::Length(Length { px: 0 }),
            left: LengthOrPercentage::Length(Length { px: 0 }),
            bottom: LengthOrPercentage::Length(Length { px: 0 }),
            right: LengthOrPercentage::Length(Length { px: 0 }),
        },
        border_style: physical::Sides {
            top: BorderStyle::NoLine,
            left: BorderStyle::NoLine,
            bottom: BorderStyle::NoLine,
            right: BorderStyle::NoLine,
        },
        margin: physical::Sides {
            top: LengthOrPercentageOrAuto::Length(Length { px: 0 }),
            left: LengthOrPercentageOrAuto::Length(Length { px: 0 }),
            bottom: LengthOrPercentageOrAuto::Length(Length { px: 0 }),
            right: LengthOrPercentageOrAuto::Length(Length { px: 0 }),
        },
        inset: physical::Sides {
            top: LengthOrPercentageOrAuto::Auto,
            left: LengthOrPercentageOrAuto::Auto,
            bottom: LengthOrPercentageOrAuto::Auto,
            right: LengthOrPercentageOrAuto::Auto,
        },
    }
}

fn fixed_border_width(width: LengthOrPercentage, style: BorderStyle) -> (r: LengthOrPercentage)
    ensures
        r == spec_fixed_border_width(width, style),
{
    if matches!(style, BorderStyle::NoLine) {
        LengthOrPercentage::Length(Length::zero())
    } else {
        width
    }
}

} // verus!
