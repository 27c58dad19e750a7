//! Fragments: the positioned, sized results of laying out boxes, plus the
//! ghost view of a fragment tree that layout contracts are stated over.

use crate::boxes::AbsolutelyPositionedBox;
use crate::geom::{flow_relative, Direction, WritingMode};
use crate::length::{Length, LengthOrPercentage};
use crate::style::ComputedValues;
use std::sync::Arc;
use vstd::prelude::*;

verus! {

/// The fragment of one laid-out box.
pub struct BoxFragment {
    pub style: Arc<ComputedValues>,
    pub children: Vec<Fragment>,
    /// From the containing block's start corner.
    pub content_rect: flow_relative::Rect<Length>,
    pub padding: flow_relative::Sides<Length>,
    pub border: flow_relative::Sides<Length>,
    pub margin: flow_relative::Sides<Length>,
}

/// A no-op placeholder fragment, e.g. for a float or absolutely positioned
/// box that contributes no visible box at its own position.
pub struct AnonymousFragment {
    pub rect: flow_relative::Rect<Length>,
    pub children: Vec<Fragment>,
    pub mode: (WritingMode, Direction),
}

/// One laid-out fragment.
pub enum Fragment {
    Box(BoxFragment),
    Anonymous(AnonymousFragment),
}

/// One axis of an absolutely positioned box's position: anchored at its
/// static position (patched while it bubbles up), or at an explicit inset.
#[derive(Clone, Copy, Debug, PartialEq, Eq, Structural)]
pub enum AbsoluteBoxOffsets {
    StaticStart { start: Length },
    Start { start: LengthOrPercentage },
}

/// A pending absolutely positioned fragment.
///
/// `tree_rank` is the index of the originating box (or of the in-flow
/// ancestor it bubbled out of) among the direct children of the block
/// container currently being laid out; each ancestor uses it to patch the
/// static-position offsets, then re-tags it with its own rank before passing
/// it further up.
pub struct AbsolutelyPositionedFragment {
    pub absolutely_positioned_box: Arc<AbsolutelyPositionedBox>,
    pub tree_rank: usize,
    pub inline_start: AbsoluteBoxOffsets,
    pub block_start: AbsoluteBoxOffsets,
}

impl AnonymousFragment {
    /// A fragment that occupies a sibling slot but paints nothing.
    pub fn no_op(mode: (WritingMode, Direction)) -> (r: AnonymousFragment)
        ensures
            r.rect == spec_zero_rect(),
            r.children@.len() == 0,
            r.mode == mode,
    {
        AnonymousFragment {
            rect: flow_relative::Rect {
                start_corner: flow_relative::Vec2 { inline: Length::zero(), block: Length::zero() },
                size: flow_relative::Vec2 { inline: Length::zero(), block: Length::zero() },
            },
            children: Vec::new(),
            mode,
        }
    }
}

pub open spec fn spec_zero_rect() -> flow_relative::Rect<Length> {
    flow_relative::Rect {
        start_corner: flow_relative::Vec2 { inline: Length { px: 0 }, block: Length { px: 0 } },
        size: flow_relative::Vec2 { inline: Length { px: 0 }, block: Length { px: 0 } },
    }
}

// --- The ghost view of a fragment tree ---

/// The mathematical model of a fragment: the same tree with ghost sequences
/// for child lists and plain values everywhere else.
pub enum FragmentTree {
    Box {
        style: ComputedValues,
        children: Seq<FragmentTree>,
        content_rect: flow_relative::Rect<Length>,
        padding: flow_relative::Sides<Length>,
        border: flow_relative::Sides<Length>,
        margin: flow_relative::Sides<Length>,
    },
    Anonymous {
        rect: flow_relative::Rect<Length>,
        children: Seq<FragmentTree>,
        mode: (WritingMode, Direction),
    },
}

pub open spec fn fragment_view(f: Fragment) -> FragmentTree
    decreases f,
{
    match f {
        Fragment::Box(b) => FragmentTree::Box {
            style: *b.style,
            children: fragments_view(b.children@),
            content_rect: b.content_rect,
            padding: b.padding,
            border: b.border,
            margin: b.margin,
        },
        Fragment::Anonymous(a) => FragmentTree::Anonymous {
            rect: a.rect,
            children: fragments_view(a.children@),
            mode: a.mode,
        },
    }
}

pub open spec fn fragments_view(s: Seq<Fragment>) -> Seq<FragmentTree>
    decreases s,
{
    if s.len() == 0 {
        Seq::empty()
    } else {
        fragments_view(s.drop_last()).push(fragment_view(s.last()))
    }
}

/// Views distribute over indexing.
pub proof fn lemma_fragments_view_index(s: Seq<Fragment>, i: int)
    requires
        0 <= i < s.len(),
    ensures
        fragments_view(s).len() == s.len(),
        fragments_view(s)[i] == fragment_view(s[i]),
    decreases s.len(),
{
    lemma_fragments_view_len(s);
    if i < s.len() - 1 {
        lemma_fragments_view_index(s.drop_last(), i);
        lemma_fragments_view_len(s.drop_last());
        assert(s.drop_last()[i] == s[i]);
    }
}

pub proof fn lemma_fragments_view_len(s: Seq<Fragment>)
    ensures
        fragments_view(s).len() == s.len(),
    decreases s.len(),
{
    if s.len() > 0 {
        lemma_fragments_view_len(s.drop_last());
    }
}

/// Views distribute over push.
pub proof fn lemma_fragments_view_push(s: Seq<Fragment>, f: Fragment)
    ensures
        fragments_view(s.push(f)) == fragments_view(s).push(fragment_view(f)),
{
    assert(s.push(f).drop_last() =~= s);
    assert(s.push(f).last() == f);
}

} // verus!
