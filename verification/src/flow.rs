//! Flow (block-and-inline) layout: consumes a box tree and a containing
//! block, produces the fragment tree, the side list of pending absolutely
//! positioned fragments, and the content block size.
//!
//! Every executable function here returns exactly what the functional model
//! (`spec_layout_*`) says, so layout is deterministic by contract, and the
//! parallel and sequential paths agree because both meet the same model.

use crate::boxes::{
    bfc_wf, block_no_floats, block_wf, container_no_floats, container_wf, size_of_bfc,
    size_of_block, size_of_blocks, size_of_container, AbsolutelyPositionedBox, BlockContainer,
    BlockFormattingContext, BlockLevelBox, IndependentFormattingContext, InlineFormattingContext,
};
use crate::float::FloatContext;
use crate::fragments::{
    fragment_view, fragments_view, lemma_fragments_view_index, lemma_fragments_view_len,
    lemma_fragments_view_push, spec_zero_rect, AbsoluteBoxOffsets, AbsolutelyPositionedFragment,
    AnonymousFragment, BoxFragment, Fragment, FragmentTree,
};
use crate::geom::{
    flow_relative, horizontal_tb_ltr, spec_sides_add, spec_sides_auto_is, spec_sides_lp_relative_to,
    spec_sides_lpa_relative_to, spec_to_flow_relative, Direction, WritingMode,
};
use crate::length::{
    clamp_px, half_px, spec_add, spec_auto_is, spec_half, spec_lp_relative_to, spec_lpa_relative_to,
    spec_sub, spec_times, Length, LengthOrAuto, LengthOrPercentage, LengthOrPercentageOrAuto,
};
use crate::style::{clone_style, ComputedValues, Position};
use rayon::iter::{IndexedParallelIterator, IntoParallelRefIterator, ParallelIterator};
use std::sync::Arc;
use vstd::prelude::*;

verus! {

/// The frame a child's percentages and auto sizes resolve against.
#[derive(Clone, Copy, Debug)]
pub struct ContainingBlock {
    pub inline_size: Length,
    pub block_size: LengthOrAuto,
    pub mode: (WritingMode, Direction),
}

/// The resolved box-model quantities of one in-flow block-level box:
/// the used padding, border and margin widths, the used inline size, the
/// tentative block size, and the content-box start corner before any
/// relative-position adjustment.
#[derive(Clone, Copy, Debug, PartialEq, Eq, Structural)]
pub struct BoxSizing {
    pub padding: flow_relative::Sides<Length>,
    pub border: flow_relative::Sides<Length>,
    pub margin: flow_relative::Sides<Length>,
    pub inline_size: Length,
    pub block_size: LengthOrAuto,
    pub start_corner: flow_relative::Vec2<Length>,
}

pub open spec fn zero_len() -> Length {
    Length { px: 0 }
}

/// CSS block-level width resolution (blockwidth, normal-block):
/// resolve padding, border and margins against the containing block's inline
/// size; with a definite used inline size, split `auto` margins (both sides
/// share the slack, one side absorbs it, and an over-constrained box treats
/// its inline-end margin as `auto`); the used inline size itself defaults to
/// what remains of the containing block.
pub open spec fn spec_sizing(style: ComputedValues, cb: ContainingBlock) -> BoxSizing {
    let cbis = cb.inline_size;
    let padding = spec_sides_lp_relative_to(
        spec_to_flow_relative(style.padding, horizontal_tb_ltr()),
        cbis,
    );
    let border = spec_sides_lp_relative_to(
        spec_to_flow_relative(style.border_width, horizontal_tb_ltr()),
        cbis,
    );
    let computed_margin = spec_sides_lpa_relative_to(
        spec_to_flow_relative(style.margin, horizontal_tb_ltr()),
        cbis,
    );
    let pb = spec_sides_add(padding, border);
    let inline_size_value = spec_lpa_relative_to(style.width, cbis);
    let resolved_margin = match inline_size_value {
        LengthOrAuto::Length(is) => {
            let inline_margins = spec_sub(spec_sub(cbis, is), spec_add(pb.inline_start, pb.inline_end));
            match (computed_margin.inline_start, computed_margin.inline_end) {
                (LengthOrAuto::Auto, LengthOrAuto::Auto) => flow_relative::Sides {
                    inline_start: LengthOrAuto::Length(spec_half(inline_margins)),
                    inline_end: LengthOrAuto::Length(spec_half(inline_margins)),
                    block_start: computed_margin.block_start,
                    block_end: computed_margin.block_end,
                },
                (LengthOrAuto::Auto, LengthOrAuto::Length(_)) => flow_relative::Sides {
                    inline_start: LengthOrAuto::Length(inline_margins),
                    inline_end: computed_margin.inline_end,
                    block_start: computed_margin.block_start,
                    block_end: computed_margin.block_end,
                },
                (LengthOrAuto::Length(_), _) => flow_relative::Sides {
                    inline_start: computed_margin.inline_start,
                    inline_end: LengthOrAuto::Length(inline_margins),
                    block_start: computed_margin.block_start,
                    block_end: computed_margin.block_end,
                },
            }
        },
        LengthOrAuto::Auto => computed_margin,
    };
    let margin = spec_sides_auto_is(resolved_margin, zero_len());
    let pbm = spec_sides_add(pb, margin);
    let inline_size = spec_auto_is(
        inline_size_value,
        spec_sub(cbis, spec_add(pbm.inline_start, pbm.inline_end)),
    );
    let block_size = match style.height {
        LengthOrPercentageOrAuto::Length(l) => LengthOrAuto::Length(l),
        LengthOrPercentageOrAuto::Percentage(p) => match cb.block_size {
            LengthOrAuto::Length(cbbs) => LengthOrAuto::Length(spec_times(cbbs, p)),
            LengthOrAuto::Auto => LengthOrAuto::Auto,
        },
        LengthOrPercentageOrAuto::Auto => LengthOrAuto::Auto,
    };
    BoxSizing {
        padding,
        border,
        margin,
        inline_size,
        block_size,
        start_corner: flow_relative::Vec2 { inline: pbm.inline_start, block: pbm.block_start },
    }
}

/// How a relatively positioned box is shifted from its normal-flow
/// position: by its inline-start (else negated inline-end) inset on the
/// inline axis and its block-start (else negated block-end) inset on the
/// block axis; percentages resolve against the box's own used sizes, an
/// auto block size counting as zero.
pub open spec fn spec_relative_adjustement(
    style: ComputedValues,
    inline_size: Length,
    block_size: LengthOrAuto,
) -> flow_relative::Vec2<Length> {
    if style.position != Position::Relative {
        flow_relative::Vec2 { inline: zero_len(), block: zero_len() }
    } else {
        let inset = spec_to_flow_relative(style.inset, horizontal_tb_ltr());
        let block_basis = spec_auto_is(block_size, zero_len());
        let inline = match inset.inline_start {
            LengthOrPercentageOrAuto::Auto => match inset.inline_end {
                LengthOrPercentageOrAuto::Auto => zero_len(),
                _ => spec_neg(resolve_lpa(inset.inline_end, inline_size)),
            },
            _ => resolve_lpa(inset.inline_start, inline_size),
        };
        let block = match inset.block_start {
            LengthOrPercentageOrAuto::Auto => match inset.block_end {
                LengthOrPercentageOrAuto::Auto => zero_len(),
                _ => spec_neg(resolve_lpa(inset.block_end, block_basis)),
            },
            _ => resolve_lpa(inset.block_start, block_basis),
        };
        flow_relative::Vec2 { inline, block }
    }
}

/// A non-auto length-or-percentage value resolved against a basis.
pub open spec fn resolve_lpa(v: LengthOrPercentageOrAuto, basis: Length) -> Length {
    spec_auto_is(spec_lpa_relative_to(v, basis), zero_len())
}

pub open spec fn spec_neg(l: Length) -> Length {
    Length { px: clamp_px(-l.px) as i64 }
}

// --- The functional model of layout ---

/// The pending fragment an absolutely positioned box turns into: anchored
/// at an explicit inset where the style gives one, else at the (not yet
/// patched) static position.
pub open spec fn spec_abs_fragment(
    ab: Arc<AbsolutelyPositionedBox>,
    initial_start_corner: flow_relative::Vec2<Length>,
    tree_rank: int,
) -> AbsolutelyPositionedFragment {
    let inset = spec_to_flow_relative((*(*ab).style).inset, horizontal_tb_ltr());
    AbsolutelyPositionedFragment {
        absolutely_positioned_box: ab,
        tree_rank: tree_rank as usize,
        inline_start: match inset.inline_start {
            LengthOrPercentageOrAuto::Length(l) => AbsoluteBoxOffsets::Start {
                start: LengthOrPercentage::Length(l),
            },
            LengthOrPercentageOrAuto::Percentage(p) => AbsoluteBoxOffsets::Start {
                start: LengthOrPercentage::Percentage(p),
            },
            LengthOrPercentageOrAuto::Auto => AbsoluteBoxOffsets::StaticStart {
                start: initial_start_corner.inline,
            },
        },
        block_start: match inset.block_start {
            LengthOrPercentageOrAuto::Length(l) => AbsoluteBoxOffsets::Start {
                start: LengthOrPercentage::Length(l),
            },
            LengthOrPercentageOrAuto::Percentage(p) => AbsoluteBoxOffsets::Start {
                start: LengthOrPercentage::Percentage(p),
            },
            LengthOrPercentageOrAuto::Auto => AbsoluteBoxOffsets::StaticStart {
                start: initial_start_corner.block,
            },
        },
    }
}

/// The rectangle a fragment occupies, for static-position patching.
pub open spec fn frag_rect(f: FragmentTree) -> flow_relative::Rect<Length> {
    match f {
        FragmentTree::Box { content_rect, .. } => content_rect,
        FragmentTree::Anonymous { rect, .. } => rect,
    }
}

/// A fragment's total block-axis extent: content plus padding, border and
/// margin on the block axis; anonymous placeholders have no box model.
pub open spec fn frag_total_block_size(f: FragmentTree) -> Length {
    match f {
        FragmentTree::Box { content_rect, padding, border, margin, .. } => spec_add(
            spec_add(
                spec_add(
                    spec_add(padding.block_start, padding.block_end),
                    spec_add(border.block_start, border.block_end),
                ),
                spec_add(margin.block_start, margin.block_end),
            ),
            content_rect.size.block,
        ),
        FragmentTree::Anonymous { rect, .. } => spec_add(zero_len(), rect.size.block),
    }
}

/// The same fragment, moved down the block axis by `offset`.
pub open spec fn frag_with_block_offset(f: FragmentTree, offset: Length) -> FragmentTree {
    match f {
        FragmentTree::Box { style, children, content_rect, padding, border, margin } => FragmentTree::Box {
            style,
            children,
            content_rect: flow_relative::Rect {
                start_corner: flow_relative::Vec2 {
                    inline: content_rect.start_corner.inline,
                    block: spec_add(content_rect.start_corner.block, offset),
                },
                size: content_rect.size,
            },
            padding,
            border,
            margin,
        },
        FragmentTree::Anonymous { rect, children, mode } => FragmentTree::Anonymous {
            rect: flow_relative::Rect {
                start_corner: flow_relative::Vec2 {
                    inline: rect.start_corner.inline,
                    block: spec_add(rect.start_corner.block, offset),
                },
                size: rect.size,
            },
            children,
            mode,
        },
    }
}

/// Stack sibling fragments along the block axis, from `i` on, starting at
/// the running offset `acc`: each fragment starts where the accumulated
/// extent of its preceding siblings ends (margin collapsing is deliberately
/// not implemented). Returns the stacked fragments and the final extent.
pub open spec fn spec_stack_from(frags: Seq<FragmentTree>, i: int, acc: Length) -> (
    Seq<FragmentTree>,
    Length,
)
    decreases frags.len() - i,
{
    if i < 0 || i >= frags.len() {
        (Seq::<FragmentTree>::empty(), acc)
    } else {
        let placed = frag_with_block_offset(frags[i], acc);
        let acc2 = spec_add(acc, frag_total_block_size(frags[i]));
        let rest = spec_stack_from(frags, i + 1, acc2);
        (seq![placed] + rest.0, rest.1)
    }
}

/// Patch one pending absolutely positioned fragment once the geometry of
/// this container's children is known: add the anchor child's start corner
/// to each still-static offset, and re-tag the fragment with the rank of the
/// box it will bubble out of.
pub open spec fn spec_patch_abs(
    af: AbsolutelyPositionedFragment,
    stacked: Seq<FragmentTree>,
    tree_rank: int,
) -> AbsolutelyPositionedFragment {
    let anchor = frag_rect(stacked[af.tree_rank as int]).start_corner;
    AbsolutelyPositionedFragment {
        absolutely_positioned_box: af.absolutely_positioned_box,
        tree_rank: tree_rank as usize,
        inline_start: spec_patch_offset(af.inline_start, anchor.inline),
        block_start: spec_patch_offset(af.block_start, anchor.block),
    }
}

pub open spec fn spec_patch_offset(o: AbsoluteBoxOffsets, delta: Length) -> AbsoluteBoxOffsets {
    match o {
        AbsoluteBoxOffsets::StaticStart { start } => AbsoluteBoxOffsets::StaticStart {
            start: spec_add(start, delta),
        },
        AbsoluteBoxOffsets::Start { start } => AbsoluteBoxOffsets::Start { start },
    }
}

/// The fragment a resolved absolutely positioned box becomes, against the
/// padding box of its containing block. Laying out its *contents* is
/// outside this core's detailed scope, so the fragment has no children and
/// auto sizes resolve to zero.
pub open spec fn spec_resolved_abs(
    af: AbsolutelyPositionedFragment,
    cb_size: flow_relative::Vec2<Length>,
) -> FragmentTree {
    let style = *(*af.absolutely_positioned_box).style;
    let padding = spec_sides_lp_relative_to(
        spec_to_flow_relative(style.padding, horizontal_tb_ltr()),
        cb_size.inline,
    );
    let border = spec_sides_lp_relative_to(
        spec_to_flow_relative(style.border_width, horizontal_tb_ltr()),
        cb_size.inline,
    );
    let margin = spec_sides_auto_is(
        spec_sides_lpa_relative_to(
            spec_to_flow_relative(style.margin, horizontal_tb_ltr()),
            cb_size.inline,
        ),
        zero_len(),
    );
    let pbm = spec_sides_add(spec_sides_add(padding, border), margin);
    let anchor_inline = match af.inline_start {
        AbsoluteBoxOffsets::StaticStart { start } => start,
        AbsoluteBoxOffsets::Start { start } => spec_lp_relative_to(start, cb_size.inline),
    };
    let anchor_block = match af.block_start {
        AbsoluteBoxOffsets::StaticStart { start } => start,
        AbsoluteBoxOffsets::Start { start } => spec_lp_relative_to(start, cb_size.block),
    };
    let inline_size = spec_auto_is(spec_lpa_relative_to(style.width, cb_size.inline), zero_len());
    let block_size = spec_auto_is(spec_lpa_relative_to(style.height, cb_size.block), zero_len());
    FragmentTree::Box {
        style,
        children: Seq::empty(),
        content_rect: flow_relative::Rect {
            start_corner: flow_relative::Vec2 {
                inline: spec_add(anchor_inline, pbm.inline_start),
                block: spec_add(anchor_block, pbm.block_start),
            },
            size: flow_relative::Vec2 { inline: inline_size, block: block_size },
        },
        padding,
        border,
        margin,
    }
}

/// The padding box a positioned box offers its absolutely positioned
/// descendants as their containing block.
pub open spec fn spec_padding_box_size(
    content_size: flow_relative::Vec2<Length>,
    padding: flow_relative::Sides<Length>,
) -> flow_relative::Vec2<Length> {
    flow_relative::Vec2 {
        inline: spec_add(content_size.inline, spec_add(padding.inline_start, padding.inline_end)),
        block: spec_add(content_size.block, spec_add(padding.block_start, padding.block_end)),
    }
}

/// Assemble an in-flow box's fragment from its sizing and the result of
/// laying out its contents. A relatively positioned box shifts by its
/// relative adjustment and resolves its own pending absolutely positioned
/// descendants (their containing block is this box); any other box passes
/// them on to its parent.
pub open spec fn spec_assemble_in_flow(
    style: ComputedValues,
    sizing: BoxSizing,
    nested: (Seq<FragmentTree>, Seq<AbsolutelyPositionedFragment>, Length),
) -> (FragmentTree, Seq<AbsolutelyPositionedFragment>) {
    let relative = spec_relative_adjustement(style, sizing.inline_size, sizing.block_size);
    let block_size = spec_auto_is(sizing.block_size, nested.2);
    let content_rect = flow_relative::Rect {
        start_corner: flow_relative::Vec2 {
            inline: spec_add(sizing.start_corner.inline, relative.inline),
            block: spec_add(sizing.start_corner.block, relative.block),
        },
        size: flow_relative::Vec2 { inline: sizing.inline_size, block: block_size },
    };
    if style.position == Position::Relative {
        let cb_size = spec_padding_box_size(content_rect.size, sizing.padding);
        let resolved = Seq::new(nested.1.len(), |i: int| spec_resolved_abs(nested.1[i], cb_size));
        let children = nested.0 + resolved;
        (
            FragmentTree::Box {
                style,
                children,
                content_rect,
                padding: sizing.padding,
                border: sizing.border,
                margin: sizing.margin,
            },
            Seq::empty(),
        )
    } else {
        (
            FragmentTree::Box {
                style,
                children: nested.0,
                content_rect,
                padding: sizing.padding,
                border: sizing.border,
                margin: sizing.margin,
            },
            nested.1,
        )
    }
}

/// What laying out one block formatting context returns.
pub open spec fn spec_layout_bfc(
    b: BlockFormattingContext,
    cb: ContainingBlock,
    tree_rank: int,
) -> (Seq<FragmentTree>, Seq<AbsolutelyPositionedFragment>, Length)
    decreases size_of_bfc(b), 0int,
{
    spec_layout_container(b.contents, cb, tree_rank)
}

/// What laying out one block container returns: its children's fragments in
/// document order, stacked along the block axis; its pending absolutely
/// positioned fragments, patched with the children's geometry and re-tagged
/// with this container's own rank; and its used block size. Inline
/// formatting contexts produce no fragments here: line layout is outside
/// this core's detailed scope.
pub open spec fn spec_layout_container(
    c: BlockContainer,
    cb: ContainingBlock,
    tree_rank: int,
) -> (Seq<FragmentTree>, Seq<AbsolutelyPositionedFragment>, Length)
    decreases size_of_container(c), 2int,
{
    match c {
        BlockContainer::BlockLevelBoxes(v) => {
            let results = spec_layout_boxes(v@, cb);
            let views = Seq::new(results.len(), |i: int| results[i].0);
            let stacked = spec_stack_from(views, 0, zero_len());
            let absfrags = spec_concat_abs(results);
            let patched = Seq::new(
                absfrags.len(),
                |i: int| spec_patch_abs(absfrags[i], stacked.0, tree_rank),
            );
            let block_size = spec_auto_is(cb.block_size, stacked.1);
            (stacked.0, patched, block_size)
        },
        BlockContainer::InlineFormattingContext(_) => (
            Seq::<FragmentTree>::empty(),
            Seq::<AbsolutelyPositionedFragment>::empty(),
            zero_len(),
        ),
    }
}

/// Each sibling box laid out at its own rank, in document order.
pub open spec fn spec_layout_boxes(s: Seq<BlockLevelBox>, cb: ContainingBlock) -> Seq<
    (FragmentTree, Seq<AbsolutelyPositionedFragment>),
>
    decreases size_of_blocks(s), 1int,
{
    if s.len() == 0 {
        Seq::empty()
    } else {
        proof {
            assert(size_of_blocks(s) == size_of_blocks(s.drop_last()) + size_of_block(s.last()));
            lemma_size_of_block_pos(s.last());
        }
        spec_layout_boxes(s.drop_last(), cb).push(
            spec_layout_box(s.last(), cb, s.len() - 1),
        )
    }
}

/// Every block-level box has a positive size.
pub proof fn lemma_size_of_block_pos(b: BlockLevelBox)
    ensures
        size_of_block(b) >= 1,
{
    match b {
        BlockLevelBox::SameFormattingContextBlock { .. } => {},
        BlockLevelBox::OutOfFlowAbsolutelyPositionedBox(_) => {},
        BlockLevelBox::OutOfFlowFloatBox(_) => {},
        BlockLevelBox::Independent { .. } => {},
    }
}

/// What laying out one block-level box at sibling rank `tree_rank` returns:
/// in-flow boxes resolve their box model and lay out their contents against
/// the containing block they establish; an absolutely positioned box leaves
/// an anonymous placeholder and one pending fragment; a float box leaves an
/// anonymous placeholder (float placement is not performed in this core).
pub open spec fn spec_layout_box(b: BlockLevelBox, cb: ContainingBlock, tree_rank: int) -> (
    FragmentTree,
    Seq<AbsolutelyPositionedFragment>,
)
    decreases size_of_block(b), 0int,
{
    match b {
        BlockLevelBox::SameFormattingContextBlock { style, contents } => {
            let sizing = spec_sizing(*style, cb);
            let child_cb = ContainingBlock {
                inline_size: sizing.inline_size,
                block_size: sizing.block_size,
                mode: horizontal_tb_ltr(),
            };
            let nested = spec_layout_container(contents, child_cb, tree_rank);
            spec_assemble_in_flow(*style, sizing, nested)
        },
        BlockLevelBox::Independent { style, contents } => {
            let sizing = spec_sizing(*style, cb);
            let child_cb = ContainingBlock {
                inline_size: sizing.inline_size,
                block_size: sizing.block_size,
                mode: horizontal_tb_ltr(),
            };
            let nested = match contents {
                IndependentFormattingContext::Flow(bfc) => spec_layout_bfc(
                    bfc,
                    child_cb,
                    tree_rank,
                ),
            };
            spec_assemble_in_flow(*style, sizing, nested)
        },
        BlockLevelBox::OutOfFlowAbsolutelyPositionedBox(ab) => (
            FragmentTree::Anonymous {
                rect: spec_zero_rect(),
                children: Seq::empty(),
                mode: cb.mode,
            },
            seq![
                spec_abs_fragment(
                    ab,
                    flow_relative::Vec2 { inline: zero_len(), block: zero_len() },
                    tree_rank,
                ),
            ],
        ),
        BlockLevelBox::OutOfFlowFloatBox(_) => (
            FragmentTree::Anonymous {
                rect: spec_zero_rect(),
                children: Seq::empty(),
                mode: cb.mode,
            },
            Seq::empty(),
        ),
    }
}

/// All siblings' pending absolutely positioned fragments, concatenated in
/// document order.
pub open spec fn spec_concat_abs(
    results: Seq<(FragmentTree, Seq<AbsolutelyPositionedFragment>)>,
) -> Seq<AbsolutelyPositionedFragment>
    decreases results,
{
    if results.len() == 0 {
        Seq::empty()
    } else {
        spec_concat_abs(results.drop_last()) + results.last().1
    }
}

// --- Supporting lemmas ---

/// `spec_layout_boxes` laid out box `i` at rank `i`.
pub proof fn lemma_layout_boxes_index(s: Seq<BlockLevelBox>, cb: ContainingBlock, i: int)
    requires
        0 <= i < s.len(),
    ensures
        spec_layout_boxes(s, cb).len() == s.len(),
        spec_layout_boxes(s, cb)[i] == spec_layout_box(s[i], cb, i),
    decreases s.len(),
{
    lemma_layout_boxes_len(s, cb);
    if i < s.len() - 1 {
        lemma_layout_boxes_index(s.drop_last(), cb, i);
        assert(s.drop_last()[i] == s[i]);
    }
}

pub proof fn lemma_layout_boxes_len(s: Seq<BlockLevelBox>, cb: ContainingBlock)
    ensures
        spec_layout_boxes(s, cb).len() == s.len(),
    decreases s.len(),
{
    if s.len() > 0 {
        lemma_layout_boxes_len(s.drop_last(), cb);
    }
}

/// Every pending fragment a box hands out is tagged with the box's rank.
pub proof fn lemma_box_abs_rank(b: BlockLevelBox, cb: ContainingBlock, tree_rank: int)
    requires
        0 <= tree_rank <= usize::MAX,
    ensures
        forall|j: int|
            0 <= j < spec_layout_box(b, cb, tree_rank).1.len()
                ==> (#[trigger] spec_layout_box(b, cb, tree_rank).1[j]).tree_rank == tree_rank,
{
    match b {
        BlockLevelBox::SameFormattingContextBlock { style, contents } => {},
        BlockLevelBox::Independent { style, contents } => {},
        BlockLevelBox::OutOfFlowAbsolutelyPositionedBox(_) => {},
        BlockLevelBox::OutOfFlowFloatBox(_) => {},
    }
}

/// Every pending fragment of a sibling list is tagged with a valid rank.
pub proof fn lemma_concat_abs_ranks(s: Seq<BlockLevelBox>, cb: ContainingBlock)
    requires
        s.len() <= usize::MAX,
    ensures
        forall|j: int|
            0 <= j < spec_concat_abs(spec_layout_boxes(s, cb)).len() ==> 0 <= (
            #[trigger] spec_concat_abs(spec_layout_boxes(s, cb))[j]).tree_rank < s.len(),
    decreases s.len(),
{
    if s.len() > 0 {
        lemma_concat_abs_ranks(s.drop_last(), cb);
        lemma_layout_boxes_len(s.drop_last(), cb);
        lemma_box_abs_rank(s.last(), cb, s.len() - 1);
        let results = spec_layout_boxes(s, cb);
        let rec = spec_layout_boxes(s.drop_last(), cb);
        assert(results.drop_last() =~= rec);
        assert(results.last() == spec_layout_box(s.last(), cb, s.len() - 1));
        let whole = spec_concat_abs(results);
        let front = spec_concat_abs(rec);
        let back = results.last().1;
        assert(whole == front + back);
        assert forall|j: int| 0 <= j < whole.len() implies 0 <= (#[trigger] whole[j]).tree_rank
            < s.len() by {
            if j < front.len() {
                assert(whole[j] == front[j]);
            } else {
                assert(whole[j] == back[j - front.len()]);
            }
        }
    }
}

/// Stacking keeps one fragment per input fragment.
pub proof fn lemma_stack_len(frags: Seq<FragmentTree>, i: int, acc: Length)
    requires
        0 <= i <= frags.len(),
    ensures
        spec_stack_from(frags, i, acc).0.len() == frags.len() - i,
    decreases frags.len() - i,
{
    if i < frags.len() {
        lemma_stack_len(frags, i + 1, spec_add(acc, frag_total_block_size(frags[i])));
    }
}

/// An element weighs no more than its whole list.
pub proof fn lemma_size_of_blocks_element(s: Seq<BlockLevelBox>, i: int)
    requires
        0 <= i < s.len(),
    ensures
        size_of_block(s[i]) <= size_of_blocks(s),
    decreases s.len(),
{
    if i < s.len() - 1 {
        lemma_size_of_blocks_element(s.drop_last(), i);
        assert(s.drop_last()[i] == s[i]);
    }
}

// --- Executable layout ---

/// Resolve the box model of one in-flow block-level box against its
/// containing block (CSS block-level width and height resolution).
pub fn solve_sizing(style: &ComputedValues, containing_block: &ContainingBlock) -> (r: BoxSizing)
    ensures
        r == spec_sizing(*style, *containing_block),
{
    let cbis = containing_block.inline_size;
    let padding = style.padding().percentages_relative_to(cbis);
    let border = style.border_width().percentages_relative_to(cbis);
    let mut computed_margin = style.margin().percentages_relative_to(cbis);
    let pb = padding.add(&border);
    let box_size = style.box_size();
    let inline_size_value = box_size.inline.percentage_relative_to(cbis);
    if let LengthOrAuto::Length(is) = inline_size_value {
        let inline_margins = cbis.sub(is).sub(pb.inline_sum());
        match (computed_margin.inline_start, computed_margin.inline_end) {
            (LengthOrAuto::Auto, LengthOrAuto::Auto) => {
                computed_margin.inline_start = LengthOrAuto::Length(inline_margins.half());
                computed_margin.inline_end = LengthOrAuto::Length(inline_margins.half());
            },
            (LengthOrAuto::Auto, LengthOrAuto::Length(_)) => {
                computed_margin.inline_start = LengthOrAuto::Length(inline_margins);
            },
            (LengthOrAuto::Length(_), _) => {
                // Either the inline-end margin is auto, or the box is
                // over-constrained and its inline-end margin yields.
                computed_margin.inline_end = LengthOrAuto::Length(inline_margins);
            },
        }
    }
    let margin = computed_margin.auto_is(Length::zero());
    let pbm = pb.add(&margin);
    let inline_size = inline_size_value.auto_is(cbis.sub(pbm.inline_sum()));
    let block_size = match box_size.block {
        LengthOrPercentageOrAuto::Length(l) => LengthOrAuto::Length(l),
        LengthOrPercentageOrAuto::Percentage(p) => match containing_block.block_size {
            LengthOrAuto::Length(cbbs) => LengthOrAuto::Length(cbbs.times(p)),
            LengthOrAuto::Auto => LengthOrAuto::Auto,
        },
        LengthOrPercentageOrAuto::Auto => LengthOrAuto::Auto,
    };
    BoxSizing { padding, border, margin, inline_size, block_size, start_corner: pbm.start_corner() }
}

fn resolve_inset(v: LengthOrPercentageOrAuto, basis: Length) -> (r: Length)
    ensures
        r == resolve_lpa(v, basis),
{
    v.percentage_relative_to(basis).auto_is(Length::zero())
}

/// How far a relatively positioned box shifts from its normal position.
pub fn relative_adjustement(
    style: &ComputedValues,
    inline_size: Length,
    block_size: LengthOrAuto,
) -> (r: flow_relative::Vec2<Length>)
    ensures
        r == spec_relative_adjustement(*style, inline_size, block_size),
{
    if !style.position.is_relatively_positioned() {
        flow_relative::Vec2 { inline: Length::zero(), block: Length::zero() }
    } else {
        let inset = style.inset();
        let block_basis = block_size.auto_is(Length::zero());
        let inline = match inset.inline_start {
            LengthOrPercentageOrAuto::Auto => match inset.inline_end {
                LengthOrPercentageOrAuto::Auto => Length::zero(),
                _ => resolve_inset(inset.inline_end, inline_size).neg(),
            },
            _ => resolve_inset(inset.inline_start, inline_size),
        };
        let block = match inset.block_start {
            LengthOrPercentageOrAuto::Auto => match inset.block_end {
                LengthOrPercentageOrAuto::Auto => Length::zero(),
                _ => resolve_inset(inset.block_end, block_basis).neg(),
            },
            _ => resolve_inset(inset.block_start, block_basis),
        };
        flow_relative::Vec2 { inline, block }
    }
}

/// Turn an absolutely positioned box into its pending fragment, anchored at
/// the given static position.
pub fn layout_absolutely_positioned(
    ab: &Arc<AbsolutelyPositionedBox>,
    initial_start_corner: flow_relative::Vec2<Length>,
    tree_rank: usize,
) -> (r: AbsolutelyPositionedFragment)
    ensures
        r == spec_abs_fragment(*ab, initial_start_corner, tree_rank as int),
{
    let inset = ab.style.inset();
    let inline_start = match inset.inline_start {
        LengthOrPercentageOrAuto::Length(l) => AbsoluteBoxOffsets::Start {
            start: LengthOrPercentage::Length(l),
        },
        LengthOrPercentageOrAuto::Percentage(p) => AbsoluteBoxOffsets::Start {
            start: LengthOrPercentage::Percentage(p),
        },
        LengthOrPercentageOrAuto::Auto => AbsoluteBoxOffsets::StaticStart {
            start: initial_start_corner.inline,
        },
    };
    let block_start = match inset.block_start {
        LengthOrPercentageOrAuto::Length(l) => AbsoluteBoxOffsets::Start {
            start: LengthOrPercentage::Length(l),
        },
        LengthOrPercentageOrAuto::Percentage(p) => AbsoluteBoxOffsets::Start {
            start: LengthOrPercentage::Percentage(p),
        },
        LengthOrPercentageOrAuto::Auto => AbsoluteBoxOffsets::StaticStart {
            start: initial_start_corner.block,
        },
    };
    AbsolutelyPositionedFragment {
        absolutely_positioned_box: crate::boxes::clone_abs_box(ab),
        tree_rank,
        inline_start,
        block_start,
    }
}

/// The fragment a resolved absolutely positioned box becomes.
pub fn resolve_absolute(
    af: &AbsolutelyPositionedFragment,
    cb_size: &flow_relative::Vec2<Length>,
) -> (r: Fragment)
    ensures
        fragment_view(r) == spec_resolved_abs(*af, *cb_size),
{
    let style = &af.absolutely_positioned_box.style;
    let padding = style.padding().percentages_relative_to(cb_size.inline);
    let border = style.border_width().percentages_relative_to(cb_size.inline);
    let margin = style.margin().percentages_relative_to(cb_size.inline).auto_is(Length::zero());
    let pbm = padding.add(&border).add(&margin);
    let anchor_inline = match af.inline_start {
        AbsoluteBoxOffsets::StaticStart { start } => start,
        AbsoluteBoxOffsets::Start { start } => start.percentage_relative_to(cb_size.inline),
    };
    let anchor_block = match af.block_start {
        AbsoluteBoxOffsets::StaticStart { start } => start,
        AbsoluteBoxOffsets::Start { start } => start.percentage_relative_to(cb_size.block),
    };
    let box_size = style.box_size();
    let inline_size = box_size.inline.percentage_relative_to(cb_size.inline).auto_is(
        Length::zero(),
    );
    let block_size = box_size.block.percentage_relative_to(cb_size.block).auto_is(Length::zero());
    Fragment::Box(
        BoxFragment {
            style: clone_style(style),
            children: Vec::new(),
            content_rect: flow_relative::Rect {
                start_corner: flow_relative::Vec2 {
                    inline: anchor_inline.add(pbm.inline_start),
                    block: anchor_block.add(pbm.block_start),
                },
                size: flow_relative::Vec2 { inline: inline_size, block: block_size },
            },
            padding,
            border,
            margin,
        },
    )
}

/// Resolve pending absolutely positioned fragments inside their positioned
/// containing block (its padding box), appending their fragments to the
/// box's children.
pub fn in_positioned_containing_block(
    absolutes: &Vec<AbsolutelyPositionedFragment>,
    children: &mut Vec<Fragment>,
    content_rect_size: &flow_relative::Vec2<Length>,
    padding: &flow_relative::Sides<Length>,
)
    ensures
        fragments_view(final(children)@) == fragments_view(old(children)@) + Seq::new(
            absolutes@.len(),
            |i: int|
                spec_resolved_abs(
                    absolutes@[i],
                    spec_padding_box_size(*content_rect_size, *padding),
                ),
        ),
{
    let cb_size = flow_relative::Vec2 {
        inline: content_rect_size.inline.add(padding.inline_sum()),
        block: content_rect_size.block.add(padding.block_sum()),
    };
    let ghost target = Seq::new(
        absolutes@.len(),
        |i: int| spec_resolved_abs(absolutes@[i], spec_padding_box_size(*content_rect_size, *padding)),
    );
    let mut i: usize = 0;
    while i < absolutes.len()
        invariant
            i <= absolutes@.len(),
            cb_size == spec_padding_box_size(*content_rect_size, *padding),
            target == Seq::new(
                absolutes@.len(),
                |k: int|
                    spec_resolved_abs(
                        absolutes@[k],
                        spec_padding_box_size(*content_rect_size, *padding),
                    ),
            ),
            fragments_view(children@) == fragments_view(old(children)@) + target.take(i as int),
        decreases absolutes@.len() - i,
    {
        let f = resolve_absolute(&absolutes[i], &cb_size);
        proof {
            lemma_fragments_view_push(children@, f);
        }
        children.push(f);
        i += 1;
        proof {
            assert(fragments_view(children@) =~= fragments_view(old(children)@) + target.take(
                i as int,
            ));
        }
    }
    proof {
        assert(target.take(absolutes@.len() as int) =~= target);
    }
}

/// Move a fragment down the block axis by the accumulated extent of its
/// preceding siblings, and return its own total block-axis extent.
fn adjust_block_axis(fragment: &mut Fragment, offset: Length) -> (total: Length)
    ensures
        fragment_view(*final(fragment)) == frag_with_block_offset(
            fragment_view(*old(fragment)),
            offset,
        ),
        total == frag_total_block_size(fragment_view(*old(fragment))),
{
    match fragment {
        Fragment::Box(b) => {
            // No margin collapsing: each sibling starts where the previous
            // one's margin box ended.
            b.content_rect.start_corner.block = b.content_rect.start_corner.block.add(offset);
            let bpm = b.padding.block_sum().add(b.border.block_sum()).add(b.margin.block_sum());
            bpm.add(b.content_rect.size.block)
        },
        Fragment::Anonymous(a) => {
            a.rect.start_corner.block = a.rect.start_corner.block.add(offset);
            Length::zero().add(a.rect.size.block)
        },
    }
}

/// The start corner a pending absolutely positioned fragment anchors to.
fn fragment_start_corner(f: &Fragment) -> (r: flow_relative::Vec2<Length>)
    ensures
        r == frag_rect(fragment_view(*f)).start_corner,
{
    match f {
        Fragment::Box(b) => b.content_rect.start_corner,
        Fragment::Anonymous(a) => a.rect.start_corner,
    }
}

fn patch_offset(o: AbsoluteBoxOffsets, delta: Length) -> (r: AbsoluteBoxOffsets)
    ensures
        r == spec_patch_offset(o, delta),
{
    match o {
        AbsoluteBoxOffsets::StaticStart { start } => AbsoluteBoxOffsets::StaticStart {
            start: start.add(delta),
        },
        AbsoluteBoxOffsets::Start { start } => AbsoluteBoxOffsets::Start { start },
    }
}

/// Assemble an in-flow box's fragment from its resolved sizing and the
/// result of laying out its contents.
fn assemble_in_flow(
    style: &Arc<ComputedValues>,
    sizing: BoxSizing,
    nested: (Vec<Fragment>, Vec<AbsolutelyPositionedFragment>, Length),
) -> (r: (Fragment, Vec<AbsolutelyPositionedFragment>))
    ensures
        ({
            let m = spec_assemble_in_flow(
                **style,
                sizing,
                (fragments_view(nested.0@), nested.1@, nested.2),
            );
            fragment_view(r.0) == m.0 && r.1@ == m.1
        }),
{
    let (mut children, nested_abspos, content_block_size) = nested;
    let relative = relative_adjustement(style, sizing.inline_size, sizing.block_size);
    let block_size = sizing.block_size.auto_is(content_block_size);
    let content_rect = flow_relative::Rect {
        start_corner: flow_relative::Vec2 {
            inline: sizing.start_corner.inline.add(relative.inline),
            block: sizing.start_corner.block.add(relative.block),
        },
        size: flow_relative::Vec2 { inline: sizing.inline_size, block: block_size },
    };
    if style.position.is_relatively_positioned() {
        in_positioned_containing_block(
            &nested_abspos,
            &mut children,
            &content_rect.size,
            &sizing.padding,
        );
        (
            Fragment::Box(
                BoxFragment {
                    style: clone_style(style),
                    children,
                    content_rect,
                    padding: sizing.padding,
                    border: sizing.border,
                    margin: sizing.margin,
                },
            ),
            Vec::new(),
        )
    } else {
        (
            Fragment::Box(
                BoxFragment {
                    style: clone_style(style),
                    children,
                    content_rect,
                    padding: sizing.padding,
                    border: sizing.border,
                    margin: sizing.margin,
                },
            ),
            nested_abspos,
        )
    }
}

/// Lay out one in-flow block-level box (blockwidth, normal-block): resolve
/// its box model, lay out its contents against the containing block it
/// establishes, then place it. Mixed writing modes are an unsupported
/// configuration, excluded by the precondition.
pub fn in_flow_non_replaced(
    containing_block: &ContainingBlock,
    box_: &BlockLevelBox,
    tree_rank: usize,
    float_context: &mut Option<FloatContext>,
) -> (r: (Fragment, Vec<AbsolutelyPositionedFragment>))
    requires
        block_wf(*box_),
        (*old(float_context)) is None ==> block_no_floats(*box_),
        containing_block.mode == horizontal_tb_ltr(),
        box_ is SameFormattingContextBlock || box_ is Independent,
    ensures
        ({
            let m = spec_layout_box(*box_, *containing_block, tree_rank as int);
            fragment_view(r.0) == m.0 && r.1@ == m.1
        }),
        *final(float_context) == *old(float_context),
    decreases size_of_block(*box_), 2int,
{
    match box_ {
        BlockLevelBox::SameFormattingContextBlock { style, contents } => {
            let sizing = solve_sizing(style, containing_block);
            let containing_block_for_children = ContainingBlock {
                inline_size: sizing.inline_size,
                block_size: sizing.block_size,
                mode: style.writing_mode(),
            };
            let mut child_float_context: Option<FloatContext> = match float_context {
                Some(fc) => Some(fc.child(sizing.inline_size, &sizing.start_corner)),
                None => None,
            };
            let nested = contents.layout(
                &containing_block_for_children,
                tree_rank,
                &mut child_float_context,
            );
            assemble_in_flow(style, sizing, nested)
        },
        BlockLevelBox::Independent { style, contents } => {
            let sizing = solve_sizing(style, containing_block);
            let containing_block_for_children = ContainingBlock {
                inline_size: sizing.inline_size,
                block_size: sizing.block_size,
                mode: style.writing_mode(),
            };
            let nested = match contents {
                IndependentFormattingContext::Flow(bfc) => bfc.layout(
                    &containing_block_for_children,
                    tree_rank,
                ),
            };
            assemble_in_flow(style, sizing, nested)
        },
        _ => vstd::pervasive::unreached(),
    }
}

/// Lay out one block-level box at its sibling rank. On the parallel path
/// (no float context) a float box cannot occur: the builder's float flag
/// forces the sequential path whenever one exists.
pub fn layout_block_level_box(
    box_: &BlockLevelBox,
    containing_block: &ContainingBlock,
    tree_rank: usize,
    float_context: &mut Option<FloatContext>,
) -> (r: (Fragment, Vec<AbsolutelyPositionedFragment>))
    requires
        block_wf(*box_),
        (*old(float_context)) is None ==> block_no_floats(*box_),
        containing_block.mode == horizontal_tb_ltr(),
    ensures
        ({
            let m = spec_layout_box(*box_, *containing_block, tree_rank as int);
            fragment_view(r.0) == m.0 && r.1@ == m.1
        }),
        *final(float_context) == *old(float_context),
    decreases size_of_block(*box_), 3int,
{
    match box_ {
        BlockLevelBox::SameFormattingContextBlock { .. } => in_flow_non_replaced(
            containing_block,
            box_,
            tree_rank,
            float_context,
        ),
        BlockLevelBox::Independent { .. } => in_flow_non_replaced(
            containing_block,
            box_,
            tree_rank,
            float_context,
        ),
        BlockLevelBox::OutOfFlowAbsolutelyPositionedBox(ab) => {
            let af = layout_absolutely_positioned(
                ab,
                flow_relative::Vec2 { inline: Length::zero(), block: Length::zero() },
                tree_rank,
            );
            let mut absolutes: Vec<AbsolutelyPositionedFragment> = Vec::new();
            absolutes.push(af);
            let fragment = Fragment::Anonymous(AnonymousFragment::no_op(containing_block.mode));
            (fragment, absolutes)
        },
        BlockLevelBox::OutOfFlowFloatBox(_) => {
            // Float placement is not performed in this core: the box holds
            // its slot with a no-op fragment on the sequential path.
            let fragment = Fragment::Anonymous(AnonymousFragment::no_op(containing_block.mode));
            (fragment, Vec::new())
        },
    }
}

/// One parallel task: lay out one sibling at its rank, with no float
/// context (floats force the sequential path).
fn layout_one_parallel(
    box_: &BlockLevelBox,
    containing_block: &ContainingBlock,
    tree_rank: usize,
) -> (r: (Fragment, Vec<AbsolutelyPositionedFragment>))
    requires
        block_wf(*box_),
        block_no_floats(*box_),
        containing_block.mode == horizontal_tb_ltr(),
    ensures
        ({
            let m = spec_layout_box(*box_, *containing_block, tree_rank as int);
            fragment_view(r.0) == m.0 && r.1@ == m.1
        }),
    decreases size_of_block(*box_), 4int,
{
    let mut float_context: Option<FloatContext> = None;
    layout_block_level_box(box_, containing_block, tree_rank, &mut float_context)
}

/// Relies on rayon's indexed parallel iterators (`par_iter`, `enumerate`,
/// `map`, `collect` on a vector): the closure runs once per element, and
/// `collect` keeps the input's index order. The closure only calls the
/// verified `layout_one_parallel`, whose preconditions this function
/// requires for every element.
#[verifier::external_body]
fn par_layout_boxes(
    containing_block: &ContainingBlock,
    boxes: &Vec<BlockLevelBox>,
) -> (r: Vec<(Fragment, Vec<AbsolutelyPositionedFragment>)>)
    requires
        forall|i: int| 0 <= i < boxes@.len() ==> block_wf(#[trigger] boxes@[i]),
        forall|i: int| 0 <= i < boxes@.len() ==> block_no_floats(#[trigger] boxes@[i]),
        containing_block.mode == horizontal_tb_ltr(),
    ensures
        r@.len() == boxes@.len(),
        forall|i: int|
            0 <= i < r@.len() ==> fragment_view((#[trigger] r@[i]).0) == spec_layout_box(
                boxes@[i],
                *containing_block,
                i,
            ).0 && r@[i].1@ == spec_layout_box(boxes@[i], *containing_block, i).1,
{
    boxes.par_iter().enumerate().map(
        |(i, b)| layout_one_parallel(b, containing_block, i),
    ).collect()
}

/// Lay out a sibling list of block-level boxes: each box at its own rank
/// (in parallel when no float context is active, else strictly
/// sequentially), then stack the fragments along the block axis in document
/// order. Returns the stacked fragments, the concatenated pending
/// absolutely positioned fragments, and the content block size.
pub fn layout_block_level_children(
    containing_block: &ContainingBlock,
    child_boxes: &Vec<BlockLevelBox>,
    float_context: &mut Option<FloatContext>,
) -> (r: (Vec<Fragment>, Vec<AbsolutelyPositionedFragment>, Length))
    requires
        forall|i: int| 0 <= i < child_boxes@.len() ==> block_wf(#[trigger] child_boxes@[i]),
        (*old(float_context)) is None ==> forall|i: int|
            0 <= i < child_boxes@.len() ==> block_no_floats(#[trigger] child_boxes@[i]),
        containing_block.mode == horizontal_tb_ltr(),
    ensures
        ({
            let results = spec_layout_boxes(child_boxes@, *containing_block);
            let views = Seq::new(results.len(), |i: int| results[i].0);
            let stacked = spec_stack_from(views, 0, zero_len());
            &&& fragments_view(r.0@) == stacked.0
            &&& r.1@ == spec_concat_abs(results)
            &&& r.2 == stacked.1
        }),
    decreases size_of_blocks(child_boxes@), 5int,
{
    let ghost results = spec_layout_boxes(child_boxes@, *containing_block);
    let ghost views = Seq::new(results.len(), |i: int| results[i].0);
    proof {
        lemma_layout_boxes_len(child_boxes@, *containing_block);
    }
    let mut content_block_size = Length::zero();
    let mut absolutes: Vec<AbsolutelyPositionedFragment> = Vec::new();
    let mut child_fragments: Vec<Fragment> = Vec::new();
    if float_context.is_some() {
        let n = child_boxes.len();
        let mut tree_rank: usize = 0;
        while tree_rank < n
            invariant
                n == child_boxes@.len(),
                tree_rank <= n,
                forall|i: int| 0 <= i < child_boxes@.len() ==> block_wf(#[trigger] child_boxes@[i]),
                containing_block.mode == horizontal_tb_ltr(),
                (*float_context) is Some,
                results == spec_layout_boxes(child_boxes@, *containing_block),
                views == Seq::new(results.len(), |i: int| results[i].0),
                results.len() == n,
                child_fragments@.len() == tree_rank,
                spec_stack_from(views, 0, zero_len()) == (
                    fragments_view(child_fragments@) + spec_stack_from(
                        views,
                        tree_rank as int,
                        content_block_size,
                    ).0,
                    spec_stack_from(views, tree_rank as int, content_block_size).1,
                ),
                absolutes@ == spec_concat_abs(results.take(tree_rank as int)),
            decreases n - tree_rank,
        {
            proof {
                lemma_layout_boxes_index(child_boxes@, *containing_block, tree_rank as int);
                lemma_size_of_blocks_element(child_boxes@, tree_rank as int);
            }
            let (mut fragment, mut frag_absolutes) = layout_block_level_box(
                &child_boxes[tree_rank],
                containing_block,
                tree_rank,
                float_context,
            );
            proof {
                assert(views[tree_rank as int] == fragment_view(fragment));
            }
            let total = adjust_block_axis(&mut fragment, content_block_size);
            let ghost prev_acc = content_block_size;
            content_block_size = content_block_size.add(total);
            match float_context {
                Some(fc) => fc.advance_block_start(total),
                None => {},
            }
            proof {
                lemma_fragments_view_push(child_fragments@, fragment);
            }
            child_fragments.push(fragment);
            absolutes.append(&mut frag_absolutes);
            tree_rank += 1;
            proof {
                assert(fragments_view(child_fragments@) + spec_stack_from(
                    views,
                    tree_rank as int,
                    content_block_size,
                ).0 =~= spec_stack_from(views, 0, zero_len()).0);
                assert(results.take(tree_rank as int).drop_last() =~= results.take(
                    tree_rank - 1,
                ));
                assert(results.take(tree_rank as int).last() == results[tree_rank - 1]);
                assert(absolutes@ =~= spec_concat_abs(results.take(tree_rank as int)));
            }
        }
        proof {
            assert(results.take(n as int) =~= results);
            assert(spec_stack_from(views, n as int, content_block_size).0 =~= Seq::<
                FragmentTree,
            >::empty());
            assert(fragments_view(child_fragments@) + spec_stack_from(
                views,
                n as int,
                content_block_size,
            ).0 =~= fragments_view(child_fragments@));
        }
    } else {
        let mut pairs = par_layout_boxes(containing_block, child_boxes);
        let ghost all_pairs = pairs@;
        let n = child_boxes.len();
        let mut tree_rank: usize = 0;
        while tree_rank < n
            invariant
                n == child_boxes@.len(),
                tree_rank <= n,
                results == spec_layout_boxes(child_boxes@, *containing_block),
                views == Seq::new(results.len(), |i: int| results[i].0),
                results.len() == n,
                all_pairs.len() == n,
                pairs@ == all_pairs.skip(tree_rank as int),
                forall|i: int|
                    0 <= i < all_pairs.len() ==> fragment_view((#[trigger] all_pairs[i]).0)
                        == spec_layout_box(child_boxes@[i], *containing_block, i).0
                        && all_pairs[i].1@ == spec_layout_box(child_boxes@[i], *containing_block, i).1,
                child_fragments@.len() == tree_rank,
                spec_stack_from(views, 0, zero_len()) == (
                    fragments_view(child_fragments@) + spec_stack_from(
                        views,
                        tree_rank as int,
                        content_block_size,
                    ).0,
                    spec_stack_from(views, tree_rank as int, content_block_size).1,
                ),
                absolutes@ == spec_concat_abs(results.take(tree_rank as int)),
            decreases n - tree_rank,
        {
            proof {
                lemma_layout_boxes_index(child_boxes@, *containing_block, tree_rank as int);
                assert(all_pairs.skip(tree_rank as int)[0] == all_pairs[tree_rank as int]);
            }
            let (mut fragment, mut frag_absolutes) = pairs.remove(0);
            proof {
                assert(views[tree_rank as int] == fragment_view(fragment));
                assert(all_pairs.skip(tree_rank as int).remove(0) =~= all_pairs.skip(
                    tree_rank + 1,
                ));
            }
            let total = adjust_block_axis(&mut fragment, content_block_size);
            content_block_size = content_block_size.add(total);
            proof {
                lemma_fragments_view_push(child_fragments@, fragment);
            }
            child_fragments.push(fragment);
            absolutes.append(&mut frag_absolutes);
            tree_rank += 1;
            proof {
                assert(fragments_view(child_fragments@) + spec_stack_from(
                    views,
                    tree_rank as int,
                    content_block_size,
                ).0 =~= spec_stack_from(views, 0, zero_len()).0);
                assert(results.take(tree_rank as int).drop_last() =~= results.take(
                    tree_rank - 1,
                ));
                assert(results.take(tree_rank as int).last() == results[tree_rank - 1]);
                assert(absolutes@ =~= spec_concat_abs(results.take(tree_rank as int)));
            }
        }
        proof {
            assert(results.take(n as int) =~= results);
            assert(spec_stack_from(views, n as int, content_block_size).0 =~= Seq::<
                FragmentTree,
            >::empty());
            assert(fragments_view(child_fragments@) + spec_stack_from(
                views,
                n as int,
                content_block_size,
            ).0 =~= fragments_view(child_fragments@));
        }
    }
    (child_fragments, absolutes, content_block_size)
}

impl InlineFormattingContext {
    /// Inline (line) layout is outside this core's detailed scope: an inline
    /// formatting context contributes no fragments and no block extent.
    pub fn layout(&self, _containing_block: &ContainingBlock, _tree_rank: usize) -> (r: (
        Vec<Fragment>,
        Vec<AbsolutelyPositionedFragment>,
        Length,
    ))
        ensures
            r.0@.len() == 0,
            r.1@.len() == 0,
            r.2 == zero_len(),
    {
        (Vec::new(), Vec::new(), Length::zero())
    }
}

impl BlockContainer {
    /// Lay out this block container against its containing block: lay out
    /// and stack the children, patch each pending absolutely positioned
    /// fragment with its anchor child's start corner and re-tag it with this
    /// container's own rank, and resolve an auto block size to the content's
    /// extent.
    pub fn layout(
        &self,
        containing_block: &ContainingBlock,
        tree_rank: usize,
        float_context: &mut Option<FloatContext>,
    ) -> (r: (Vec<Fragment>, Vec<AbsolutelyPositionedFragment>, Length))
        requires
            container_wf(*self),
            (*old(float_context)) is None ==> container_no_floats(*self),
            containing_block.mode == horizontal_tb_ltr(),
        ensures
            ({
                let m = spec_layout_container(*self, *containing_block, tree_rank as int);
                fragments_view(r.0@) == m.0 && r.1@ == m.1 && r.2 == m.2
            }),
        decreases size_of_container(*self), 6int,
    {
        match self {
            BlockContainer::BlockLevelBoxes(child_boxes) => {
                let ghost n_children = child_boxes.len();
                proof {
                    assert(child_boxes@.len() <= usize::MAX);
                    assert(forall|i: int|
                        0 <= i < child_boxes@.len() ==> block_wf(#[trigger] child_boxes@[i]));
                    if (*float_context) is None {
                        assert(container_no_floats(*self));
                        assert(forall|i: int|
                            0 <= i < child_boxes@.len() ==> block_no_floats(
                                #[trigger] child_boxes@[i],
                            ));
                    }
                }
                let (child_fragments, absolutes, content_block_size) = layout_block_level_children(
                    containing_block,
                    child_boxes,
                    float_context,
                );
                let ghost results = spec_layout_boxes(child_boxes@, *containing_block);
                let ghost views = Seq::new(results.len(), |i: int| results[i].0);
                let ghost stacked = spec_stack_from(views, 0, zero_len());
                proof {
                    lemma_layout_boxes_len(child_boxes@, *containing_block);
                    lemma_stack_len(views, 0, zero_len());
                    lemma_concat_abs_ranks(child_boxes@, *containing_block);
                    lemma_fragments_view_len(child_fragments@);
                }
                let mut patched: Vec<AbsolutelyPositionedFragment> = Vec::new();
                let mut i: usize = 0;
                while i < absolutes.len()
                    invariant
                        i <= absolutes@.len(),
                        absolutes@ == spec_concat_abs(results),
                        stacked == spec_stack_from(views, 0, zero_len()),
                        fragments_view(child_fragments@) == stacked.0,
                        child_fragments@.len() == stacked.0.len(),
                        forall|j: int|
                            0 <= j < absolutes@.len() ==> 0 <= (
                            #[trigger] absolutes@[j]).tree_rank < child_fragments@.len(),
                        patched@.len() == i,
                        forall|k: int|
                            0 <= k < i ==> #[trigger] patched@[k] == spec_patch_abs(
                                absolutes@[k],
                                stacked.0,
                                tree_rank as int,
                            ),
                    decreases absolutes@.len() - i,
                {
                    let af = &absolutes[i];
                    proof {
                        lemma_fragments_view_index(child_fragments@, af.tree_rank as int);
                    }
                    let anchor = fragment_start_corner(&child_fragments[af.tree_rank]);
                    let new_af = AbsolutelyPositionedFragment {
                        absolutely_positioned_box: crate::boxes::clone_abs_box(
                            &af.absolutely_positioned_box,
                        ),
                        tree_rank,
                        inline_start: patch_offset(af.inline_start, anchor.inline),
                        block_start: patch_offset(af.block_start, anchor.block),
                    };
                    patched.push(new_af);
                    i += 1;
                }
                proof {
                    assert(patched@ =~= Seq::new(
                        absolutes@.len(),
                        |k: int| spec_patch_abs(absolutes@[k], stacked.0, tree_rank as int),
                    ));
                }
                let block_size = containing_block.block_size.auto_is(content_block_size);
                (child_fragments, patched, block_size)
            },
            BlockContainer::InlineFormattingContext(ifc) => {
                let r = ifc.layout(containing_block, tree_rank);
                proof {
                    assert(fragments_view(r.0@) =~= Seq::<FragmentTree>::empty());
                    assert(r.1@ =~= Seq::<AbsolutelyPositionedFragment>::empty());
                }
                r
            },
        }
    }
}

impl BlockFormattingContext {
    /// Lay out this block formatting context. A float context exists exactly
    /// while the context contains floats; that choice is permanent for the
    /// whole subtree, so floats force the sequential path everywhere below.
    pub fn layout(&self, containing_block: &ContainingBlock, tree_rank: usize) -> (r: (
        Vec<Fragment>,
        Vec<AbsolutelyPositionedFragment>,
        Length,
    ))
        requires
            bfc_wf(*self),
            containing_block.mode == horizontal_tb_ltr(),
        ensures
            ({
                let m = spec_layout_bfc(*self, *containing_block, tree_rank as int);
                fragments_view(r.0@) == m.0 && r.1@ == m.1 && r.2 == m.2
            }),
        decreases size_of_bfc(*self), 7int,
    {
        if self.contains_floats {
            let mut float_context = Some(FloatContext::root(containing_block.inline_size));
            self.contents.layout(containing_block, tree_rank, &mut float_context)
        } else {
            let mut float_context: Option<FloatContext> = None;
            self.contents.layout(containing_block, tree_rank, &mut float_context)
        }
    }
}

/// Lay out a whole document if the containing block's writing mode is the
/// one this engine supports; reject any other mode as an unsupported
/// configuration rather than produce wrong geometry. Succeeds on exactly
/// the supported mode.
pub fn try_layout_document(
    bfc: &BlockFormattingContext,
    containing_block: &ContainingBlock,
) -> (r: Option<(Vec<Fragment>, Length)>)
    requires
        bfc_wf(*bfc),
    ensures
        containing_block.mode != horizontal_tb_ltr() <==> r is None,
        r matches Some(t) ==> {
            let m = spec_layout_document(*bfc, *containing_block);
            fragments_view(t.0@) == m.0 && t.1 == m.1
        },
{
    let (mode, direction) = containing_block.mode;
    if !(matches!(mode, WritingMode::HorizontalTb) && matches!(direction, Direction::Ltr)) {
        return None;
    }
    Some(layout_document(bfc, containing_block))
}

/// Lay out a whole document: the fragment consumer must not observe any
/// unresolved absolutely positioned fragment, so whatever bubbled to the
/// root is resolved here against the initial containing block.
pub fn layout_document(bfc: &BlockFormattingContext, containing_block: &ContainingBlock) -> (r: (
    Vec<Fragment>,
    Length,
))
    requires
        bfc_wf(*bfc),
        containing_block.mode == horizontal_tb_ltr(),
    ensures
        ({
            let m = spec_layout_document(*bfc, *containing_block);
            fragments_view(r.0@) == m.0 && r.1 == m.1
        }),
{
    let (mut fragments, absolutes, content_block_size) = bfc.layout(containing_block, 0);
    let block_size = containing_block.block_size.auto_is(content_block_size);
    let cb_size = flow_relative::Vec2 { inline: containing_block.inline_size, block: block_size };
    let ghost target = Seq::new(
        absolutes@.len(),
        |i: int| spec_resolved_abs(absolutes@[i], cb_size),
    );
    let ghost base = fragments_view(fragments@);
    let mut i: usize = 0;
    while i < absolutes.len()
        invariant
            i <= absolutes@.len(),
            target == Seq::new(absolutes@.len(), |k: int| spec_resolved_abs(absolutes@[k], cb_size)),
            fragments_view(fragments@) == base + target.take(i as int),
        decreases absolutes@.len() - i,
    {
        let f = resolve_absolute(&absolutes[i], &cb_size);
        proof {
            lemma_fragments_view_push(fragments@, f);
        }
        fragments.push(f);
        i += 1;
        proof {
            assert(fragments_view(fragments@) =~= base + target.take(i as int));
        }
    }
    proof {
        assert(target.take(absolutes@.len() as int) =~= target);
        assert(base + target.take(0) =~= base);
    }
    (fragments, content_block_size)
}

// --- Laws ---

/// The running block offset at which sibling `j` is placed: `acc` plus the
/// total block extents of the siblings from `i` up to `j`.
pub open spec fn spec_stack_offset(frags: Seq<FragmentTree>, i: int, acc: Length, j: int) -> Length
    decreases j - i,
{
    if j <= i {
        acc
    } else {
        spec_stack_offset(frags, i + 1, spec_add(acc, frag_total_block_size(frags[i])), j)
    }
}

/// Stacking places fragment `j` exactly at the accumulated extent of its
/// preceding siblings, and the total extent is the final accumulator.
pub proof fn lemma_stack_index(frags: Seq<FragmentTree>, i: int, acc: Length, j: int)
    requires
        0 <= i <= j < frags.len(),
    ensures
        spec_stack_from(frags, i, acc).0.len() == frags.len() - i,
        spec_stack_from(frags, i, acc).0[j - i] == frag_with_block_offset(
            frags[j],
            spec_stack_offset(frags, i, acc, j),
        ),
        spec_stack_from(frags, i, acc).1 == spec_stack_offset(frags, i, acc, frags.len() as int),
    decreases j - i,
{
    lemma_stack_len(frags, i, acc);
    let acc2 = spec_add(acc, frag_total_block_size(frags[i]));
    if j == i {
        lemma_stack_offset_end(frags, i, acc);
    } else {
        lemma_stack_index(frags, i + 1, acc2, j);
    }
}

proof fn lemma_stack_offset_end(frags: Seq<FragmentTree>, i: int, acc: Length)
    requires
        0 <= i <= frags.len(),
    ensures
        spec_stack_from(frags, i, acc).1 == spec_stack_offset(frags, i, acc, frags.len() as int),
    decreases frags.len() - i,
{
    if i < frags.len() {
        lemma_stack_offset_end(frags, i + 1, spec_add(acc, frag_total_block_size(frags[i])));
    }
}

/// Order preservation: for any sibling list, whether it was laid out on the
/// parallel or on the sequential path, the container's output holds exactly
/// one fragment per child box, in document (input) order: fragment `i` is
/// child `i`'s own fragment, moved down by the accumulated extent of the
/// children before it. Both paths return this same value, because each
/// meets `spec_layout_container` exactly.
pub proof fn lemma_order_preservation(c: BlockContainer, cb: ContainingBlock, tree_rank: int)
    requires
        c is BlockLevelBoxes,
    ensures
        c matches BlockContainer::BlockLevelBoxes(v) ==> {
            let m = spec_layout_container(c, cb, tree_rank);
            let results = spec_layout_boxes(v@, cb);
            let views = Seq::new(results.len(), |i: int| results[i].0);
            &&& m.0.len() == v@.len()
            &&& forall|i: int|
                0 <= i < v@.len() ==> #[trigger] m.0[i] == frag_with_block_offset(
                    spec_layout_box(v@[i], cb, i).0,
                    spec_stack_offset(views, 0, zero_len(), i),
                )
        },
{
    match c {
        BlockContainer::BlockLevelBoxes(v) => {
            let results = spec_layout_boxes(v@, cb);
            let views = Seq::new(results.len(), |i: int| results[i].0);
            lemma_layout_boxes_len(v@, cb);
            lemma_stack_len(views, 0, zero_len());
            assert forall|i: int| 0 <= i < v@.len() implies #[trigger] spec_layout_container(
                c,
                cb,
                tree_rank,
            ).0[i] == frag_with_block_offset(
                spec_layout_box(v@[i], cb, i).0,
                spec_stack_offset(views, 0, zero_len(), i),
            ) by {
                lemma_layout_boxes_index(v@, cb, i);
                lemma_stack_index(views, 0, zero_len(), i);
            }
        },
        _ => {},
    }
}

/// Determinism: laying out the same box tree against the same containing
/// block twice yields identical fragment geometry, because every layout
/// entry point returns exactly `spec_layout_bfc` of its inputs.
pub proof fn lemma_layout_deterministic(
    b: BlockFormattingContext,
    cb: ContainingBlock,
    tree_rank: int,
    first: (Seq<FragmentTree>, Seq<AbsolutelyPositionedFragment>, Length),
    second: (Seq<FragmentTree>, Seq<AbsolutelyPositionedFragment>, Length),
)
    requires
        first == spec_layout_bfc(b, cb, tree_rank),
        second == spec_layout_bfc(b, cb, tree_rank),
    ensures
        first == second,
{
}

/// Floats force the sequential path: on any box tree the builder produced,
/// a cleared float flag means no float box shares the block formatting
/// context, which is exactly the precondition of the parallel path — so the
/// "float box in parallel layout" failure cannot occur, and a container
/// whose flag is set is only ever laid out sequentially.
pub proof fn lemma_float_flag_forces_sequential(b: BlockFormattingContext)
    requires
        bfc_wf(b),
        !b.contains_floats,
    ensures
        container_no_floats(b.contents),
{
}

/// The style of a simple block: a definite height, everything else initial.
pub open spec fn spec_simple_height_style(h: Length) -> ComputedValues {
    ComputedValues {
        height: LengthOrPercentageOrAuto::Length(h),
        ..crate::style::spec_initial_style()
    }
}

/// Vertical stacking: two sibling blocks of content block sizes `h1` and
/// `h2`, with no margins, padding or borders, start at block offsets 0 and
/// `h1`, and their container's content block size is `h1 + h2`.
pub proof fn lemma_vertical_stacking(
    c: BlockContainer,
    cb: ContainingBlock,
    h1: Length,
    h2: Length,
)
    requires
        0 <= h1.px <= crate::length::MAX_PX,
        0 <= h2.px <= crate::length::MAX_PX,
        h1.px + h2.px <= crate::length::MAX_PX,
        c matches BlockContainer::BlockLevelBoxes(v) && v@.len() == 2 && (forall|i: int|
            0 <= i < 2 ==> ((#[trigger] v@[i]) matches BlockLevelBox::SameFormattingContextBlock {
                style,
                contents,
            } && (contents matches BlockContainer::BlockLevelBoxes(w) && w@.len() == 0))) && (
        v@[0] matches BlockLevelBox::SameFormattingContextBlock { style, .. } && *style
            == spec_simple_height_style(h1)) && (v@[1]
            matches BlockLevelBox::SameFormattingContextBlock { style, .. } && *style
            == spec_simple_height_style(h2)),
    ensures
        ({
            let m = spec_layout_container(c, cb, 0);
            &&& m.0.len() == 2
            &&& frag_rect(m.0[0]).start_corner.block.px == 0
            &&& frag_rect(m.0[1]).start_corner.block.px == h1.px
            &&& m.2 == spec_auto_is(cb.block_size, Length { px: (h1.px + h2.px) as i64 })
        }),
{
    match c {
        BlockContainer::BlockLevelBoxes(v) => {
            let results = spec_layout_boxes(v@, cb);
            let views = Seq::new(results.len(), |i: int| results[i].0);
            lemma_layout_boxes_len(v@, cb);
            lemma_layout_boxes_index(v@, cb, 0);
            lemma_layout_boxes_index(v@, cb, 1);
            lemma_stack_index(views, 0, zero_len(), 0);
            lemma_stack_index(views, 0, zero_len(), 1);
            lemma_stack_offset_end(views, 0, zero_len());
            assert(v@.drop_last().drop_last() =~= Seq::<BlockLevelBox>::empty());
            let f0 = spec_layout_box(v@[0], cb, 0).0;
            let f1 = spec_layout_box(v@[1], cb, 1).0;
            assert(views[0] == f0);
            assert(views[1] == f1);
            assert(frag_total_block_size(f0).px == h1.px);
            assert(frag_total_block_size(f1).px == h2.px);
            assert(frag_rect(frag_with_block_offset(f0, zero_len())).start_corner.block.px == 0);
            let off1 = spec_stack_offset(views, 0, zero_len(), 1);
            assert(off1 == spec_stack_offset(views, 1, spec_add(zero_len(), frag_total_block_size(f0)), 1));
            assert(off1.px == h1.px);
            assert(frag_rect(f1).start_corner.block.px == 0);
            assert(frag_rect(frag_with_block_offset(f1, off1)).start_corner.block.px == h1.px);
            let off2 = spec_stack_offset(views, 0, zero_len(), 2);
            assert(off2 == spec_stack_offset(views, 1, spec_add(zero_len(), frag_total_block_size(f0)), 2));
            assert(off2 == spec_stack_offset(
                views,
                2,
                spec_add(spec_add(zero_len(), frag_total_block_size(f0)), frag_total_block_size(f1)),
                2,
            ));
            assert(off2.px == h1.px + h2.px);
        },
        _ => {},
    }
}

/// Auto-margin centering: a block child with definite width `w`, no padding
/// or border, and both inline margins `auto`, splits the containing block's
/// slack evenly: both used inline margins equal `(C - w) / 2`, and the
/// child's content rect starts exactly that margin from the containing
/// block's inline start.
pub proof fn lemma_auto_margin_centering(
    b: BlockLevelBox,
    cb: ContainingBlock,
    w: Length,
    tree_rank: int,
)
    requires
        w.wf(),
        cb.inline_size.wf(),
        -crate::length::MAX_PX <= cb.inline_size.px - w.px <= crate::length::MAX_PX,
        b matches BlockLevelBox::SameFormattingContextBlock { style, .. } && *style
            == (ComputedValues {
            width: LengthOrPercentageOrAuto::Length(w),
            margin: crate::geom::physical::Sides {
                top: LengthOrPercentageOrAuto::Length(Length { px: 0 }),
                left: LengthOrPercentageOrAuto::Auto,
                bottom: LengthOrPercentageOrAuto::Length(Length { px: 0 }),
                right: LengthOrPercentageOrAuto::Auto,
            },
            ..crate::style::spec_initial_style()
        }),
    ensures
        b matches BlockLevelBox::SameFormattingContextBlock { style, .. } ==> {
            let sizing = spec_sizing(*style, cb);
            let margin = half_px(cb.inline_size.px - w.px);
            &&& sizing.margin.inline_start.px == margin
            &&& sizing.margin.inline_end.px == margin
            &&& sizing.inline_size == w
            &&& frag_rect(spec_layout_box(b, cb, tree_rank).0).start_corner.inline.px == margin
        },
{
    match b {
        BlockLevelBox::SameFormattingContextBlock { style, contents } => {
            let sizing = spec_sizing(*style, cb);
            assert(sizing.margin.inline_start.px == half_px(cb.inline_size.px - w.px));
        },
        _ => {},
    }
}

/// What a whole document layout returns: the block formatting context's
/// fragments, followed by the fragments of the absolutely positioned boxes
/// that bubbled all the way up, resolved against the initial containing
/// block; plus the content block size.
pub open spec fn spec_layout_document(b: BlockFormattingContext, cb: ContainingBlock) -> (
    Seq<FragmentTree>,
    Length,
) {
    let t = spec_layout_bfc(b, cb, 0);
    let cb_size = flow_relative::Vec2 {
        inline: cb.inline_size,
        block: spec_auto_is(cb.block_size, t.2),
    };
    let resolved = Seq::new(t.1.len(), |i: int| spec_resolved_abs(t.1[i], cb_size));
    (t.0 + resolved, t.2)
}

} // verus!
