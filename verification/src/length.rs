//! One-dimensional CSS lengths in pixels, and the `auto` / percentage
//! flavours used by computed style values.
//!
//! Lengths are integer pixel counts. Every arithmetic operation saturates at
//! `MAX_PX` in magnitude, so the operations are total and layout never
//! overflows; within `-MAX_PX ..= MAX_PX` the arithmetic is exact.

use vstd::prelude::*;

verus! {

/// Largest magnitude, in pixels, that any `Length` arithmetic can produce.
pub const MAX_PX: i64 = 0x4000_0000_0000;

/// Per-myriad scale of `Percentage`: `PER_CENT` per-myriad units are 1%.
pub const PER_CENT: i64 = 100;

/// Saturate an unbounded pixel count into `-MAX_PX ..= MAX_PX`.
pub open spec fn clamp_px(x: int) -> int {
    if x > MAX_PX as int {
        MAX_PX as int
    } else if x < -(MAX_PX as int) {
        -(MAX_PX as int)
    } else {
        x
    }
}

/// Halving that rounds towards zero, as Rust's `/ 2` does.
pub open spec fn half_px(x: int) -> int {
    if x >= 0 {
        x / 2
    } else {
        -((-x) / 2)
    }
}

/// Division by the percentage base that rounds towards zero.
pub open spec fn div_myriad(x: int) -> int {
    if x >= 0 {
        x / 10000
    } else {
        -((-x) / 10000)
    }
}

/// `px` scaled by a percentage given in per-myriad units, before clamping.
pub open spec fn scale_px(px: int, per_myriad: int) -> int {
    div_myriad(px * per_myriad)
}

/// The saturating sum of two lengths (what `Length::add` returns).
pub open spec fn spec_add(a: Length, b: Length) -> Length {
    Length { px: clamp_px(a.px + b.px) as i64 }
}

/// The saturating difference of two lengths (what `Length::sub` returns).
pub open spec fn spec_sub(a: Length, b: Length) -> Length {
    Length { px: clamp_px(a.px - b.px) as i64 }
}

/// Half a length, rounded towards zero (what `Length::half` returns).
pub open spec fn spec_half(a: Length) -> Length {
    Length { px: half_px(a.px as int) as i64 }
}

/// A length scaled by a percentage (what `Length::times` returns).
pub open spec fn spec_times(a: Length, p: Percentage) -> Length {
    Length { px: clamp_px(scale_px(a.px as int, p.per_myriad as int)) as i64 }
}

/// An absolute length: a whole number of CSS pixels.
#[derive(Clone, Copy, Debug, PartialEq, Eq, Structural)]
pub struct Length {
    pub px: i64,
}

/// <https://drafts.csswg.org/css-values/#percentages>, in units of 1/10000.
#[derive(Clone, Copy, Debug, PartialEq, Eq, Structural)]
pub struct Percentage {
    pub per_myriad: i64,
}

impl Length {
    /// Every value that any `Length` operation returns satisfies this bound.
    pub open spec fn wf(self) -> bool {
        -(MAX_PX as int) <= self.px as int <= MAX_PX as int
    }

    pub fn zero() -> (r: Length)
        ensures
            r.px == 0,
    {
        Length { px: 0 }
    }

    /// Build a length, saturating at the representable bound.
    pub fn of_px(px: i64) -> (r: Length)
        ensures
            r.px == clamp_px(px as int),
            r.wf(),
    {
        if px > MAX_PX {
            Length { px: MAX_PX }
        } else if px < -MAX_PX {
            Length { px: -MAX_PX }
        } else {
            Length { px }
        }
    }

    fn of_wide(x: i128) -> (r: Length)
        ensures
            r.px == clamp_px(x as int),
            r.wf(),
    {
        if x > MAX_PX as i128 {
            Length { px: MAX_PX }
        } else if x < -(MAX_PX as i128) {
            Length { px: -MAX_PX }
        } else {
            Length { px: x as i64 }
        }
    }

    pub fn add(self, other: Length) -> (r: Length)
        ensures
            r == spec_add(self, other),
            r.wf(),
    {
        Length::of_wide(self.px as i128 + other.px as i128)
    }

    pub fn sub(self, other: Length) -> (r: Length)
        ensures
            r == spec_sub(self, other),
            r.wf(),
    {
        Length::of_wide(self.px as i128 - other.px as i128)
    }

    pub fn neg(self) -> (r: Length)
        ensures
            r.px == clamp_px(-self.px),
            r.wf(),
    {
        Length::of_wide(-(self.px as i128))
    }

    pub fn max(self, other: Length) -> (r: Length)
        ensures
            r.px == (if self.px >= other.px {
                self.px
            } else {
                other.px
            }),
    {
        if self.px >= other.px {
            self
        } else {
            other
        }
    }

    pub fn min(self, other: Length) -> (r: Length)
        ensures
            r.px == (if self.px <= other.px {
                self.px
            } else {
                other.px
            }),
    {
        if self.px <= other.px {
            self
        } else {
            other
        }
    }

    pub fn max_assign(&mut self, other: Length)
        ensures
            final(self).px == (if old(self).px >= other.px {
                old(self).px
            } else {
                other.px
            }),
    {
        *self = self.max(other);
    }

    /// Half of this length, rounded towards zero.
    pub fn half(self) -> (r: Length)
        ensures
            r == spec_half(self),
    {
        Length { px: self.px / 2 }
    }

    /// This length scaled by a percentage, saturating at the bound.
    pub fn times(self, p: Percentage) -> (r: Length)
        ensures
            r == spec_times(self, p),
            r.wf(),
    {
        let a: i128 = self.px as i128;
        let b: i128 = p.per_myriad as i128;
        assert(-0x4000_0000_0000_0000_0000_0000_0000_0000 <= a * b
            <= 0x4000_0000_0000_0000_0000_0000_0000_0000) by (nonlinear_arith)
            requires
                -0x8000_0000_0000_0000 <= a <= 0x7FFF_FFFF_FFFF_FFFF,
                -0x8000_0000_0000_0000 <= b <= 0x7FFF_FFFF_FFFF_FFFF,
        ;
        let wide: i128 = a * b;
        let q: i128 = if wide >= 0 {
            wide / 10000
        } else {
            -((-wide) / 10000)
        };
        Length::of_wide(q)
    }
}

/// A value that is either an absolute length or a percentage of some
/// yet-unknown reference length.
#[derive(Clone, Copy, Debug, PartialEq, Eq, Structural)]
pub enum LengthOrPercentage {
    Length(Length),
    Percentage(Percentage),
}

/// Like `LengthOrPercentage`, with the CSS `auto` keyword as a third case.
#[derive(Clone, Copy, Debug, PartialEq, Eq, Structural)]
pub enum LengthOrPercentageOrAuto {
    Length(Length),
    Percentage(Percentage),
    Auto,
}

/// A used value whose percentage part is already resolved: a length or `auto`.
#[derive(Clone, Copy, Debug, PartialEq, Eq, Structural)]
pub enum LengthOrAuto {
    Length(Length),
    Auto,
}

/// What `LengthOrPercentage::percentage_relative_to` returns.
pub open spec fn spec_lp_relative_to(v: LengthOrPercentage, reference: Length) -> Length {
    match v {
        LengthOrPercentage::Length(l) => l,
        LengthOrPercentage::Percentage(p) => Length {
            px: clamp_px(scale_px(reference.px as int, p.per_myriad as int)) as i64,
        },
    }
}

/// What `LengthOrPercentageOrAuto::percentage_relative_to` returns.
pub open spec fn spec_lpa_relative_to(v: LengthOrPercentageOrAuto, reference: Length) -> LengthOrAuto {
    match v {
        LengthOrPercentageOrAuto::Length(l) => LengthOrAuto::Length(l),
        LengthOrPercentageOrAuto::Percentage(p) => LengthOrAuto::Length(
            Length { px: clamp_px(scale_px(reference.px as int, p.per_myriad as int)) as i64 },
        ),
        LengthOrPercentageOrAuto::Auto => LengthOrAuto::Auto,
    }
}

impl LengthOrPercentage {
    /// Resolve the percentage case against the given reference length.
    pub fn percentage_relative_to(&self, reference: Length) -> (r: Length)
        ensures
            r == spec_lp_relative_to(*self, reference),
    {
        match *self {
            LengthOrPercentage::Length(l) => l,
            LengthOrPercentage::Percentage(p) => reference.times(p),
        }
    }
}

impl LengthOrPercentageOrAuto {
    /// The same value without the `auto` case, or `None` for `auto`.
    pub fn non_auto(&self) -> (r: Option<LengthOrPercentage>)
        ensures
            r == (match *self {
                LengthOrPercentageOrAuto::Length(l) => Some(LengthOrPercentage::Length(l)),
                LengthOrPercentageOrAuto::Percentage(p) => Some(LengthOrPercentage::Percentage(p)),
                LengthOrPercentageOrAuto::Auto => None::<LengthOrPercentage>,
            }),
    {
        match *self {
            LengthOrPercentageOrAuto::Length(l) => Some(LengthOrPercentage::Length(l)),
            LengthOrPercentageOrAuto::Percentage(p) => Some(LengthOrPercentage::Percentage(p)),
            LengthOrPercentageOrAuto::Auto => None,
        }
    }

    /// Resolve the percentage case against the given reference length.
    pub fn percentage_relative_to(&self, reference: Length) -> (r: LengthOrAuto)
        ensures
            r == spec_lpa_relative_to(*self, reference),
    {
        match *self {
            LengthOrPercentageOrAuto::Length(l) => LengthOrAuto::Length(l),
            LengthOrPercentageOrAuto::Percentage(p) => LengthOrAuto::Length(reference.times(p)),
            LengthOrPercentageOrAuto::Auto => LengthOrAuto::Auto,
        }
    }
}

/// What `LengthOrAuto::auto_is` returns.
pub open spec fn spec_auto_is(v: LengthOrAuto, auto_value: Length) -> Length {
    match v {
        LengthOrAuto::Length(l) => l,
        LengthOrAuto::Auto => auto_value,
    }
}

impl LengthOrAuto {
    /// The length, with `auto` read as the given fallback value.
    pub fn auto_is(&self, auto_value: Length) -> (r: Length)
        ensures
            r == spec_auto_is(*self, auto_value),
    {
        match *self {
            LengthOrAuto::Length(l) => l,
            LengthOrAuto::Auto => auto_value,
        }
    }

    /// Apply `f` to the length case; `auto` stays `auto`.
    pub fn map<F: Fn(Length) -> Length>(&self, f: F) -> (r: LengthOrAuto)
        requires
            forall|x: Length| call_requires(f, (x,)),
        ensures
            self is Auto ==> r is Auto,
            self matches LengthOrAuto::Length(l) ==> (r matches LengthOrAuto::Length(m)
                && call_ensures(f, (*l,), m)),
    {
        match *self {
            LengthOrAuto::Length(l) => LengthOrAuto::Length(f(l)),
            LengthOrAuto::Auto => LengthOrAuto::Auto,
        }
    }
}

} // verus!
