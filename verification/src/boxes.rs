//! The box tree: what box construction produces and flow layout consumes.
//!
//! A block container is either a list of block-level boxes or one inline
//! formatting context, never both. Out-of-flow (absolutely positioned and
//! floating) boxes appear both at block level and inside inline formatting
//! contexts.

use crate::style::ComputedValues;
use std::sync::Arc;
use vstd::prelude::*;

verus! {

/// Whether a block container holds any float box, directly or under any
/// descendant that shares its block formatting context. This flag is the
/// sole signal that layout must use the float-aware sequential path.
#[derive(Clone, Copy, Debug, PartialEq, Eq, Structural)]
pub enum ContainsFloats {
    No,
    Yes,
}

impl ContainsFloats {
    /// Accumulate: once `Yes`, always `Yes`.
    pub fn bitor_assign(&mut self, other: ContainsFloats)
        ensures
            *final(self) == (if other == ContainsFloats::Yes {
                ContainsFloats::Yes
            } else {
                *old(self)
            }),
    {
        if matches!(other, ContainsFloats::Yes) {
            *self = ContainsFloats::Yes;
        }
    }
}

impl Default for ContainsFloats {
    fn default() -> (r: ContainsFloats)
        ensures
            r == ContainsFloats::No,
    {
        ContainsFloats::No
    }
}

/// A run of text, after whitespace collapsing, with the style it inherits.
pub struct TextRun {
    pub parent_style: Arc<ComputedValues>,
    pub text: Vec<u8>,
}

/// An inline box generated by one inline-level element, or by one fragment
/// of such an element when block-level siblings split it.
///
/// `first_fragment` and `last_fragment` say whether this occurrence is the
/// start and/or the end of the element it came from.
pub struct InlineBox {
    pub style: Arc<ComputedValues>,
    pub first_fragment: bool,
    pub last_fragment: bool,
    pub children: Vec<InlineLevelBox>,
}

/// One inline-level item of an inline formatting context.
pub enum InlineLevelBox {
    TextRun(TextRun),
    InlineBox(InlineBox),
    OutOfFlowAbsolutelyPositionedBox(Arc<AbsolutelyPositionedBox>),
    OutOfFlowFloatBox(FloatBox),
}

/// An ordered run of inline-level content.
///
/// Invariant kept by the builder: one of these is never pushed to a list of
/// block-level boxes while empty.
pub struct InlineFormattingContext {
    pub inline_level_boxes: Vec<InlineLevelBox>,
}

/// An absolutely positioned box, taken out of the normal flow.
pub struct AbsolutelyPositionedBox {
    pub style: Arc<ComputedValues>,
    pub contents: IndependentFormattingContext,
}

/// A floating box, taken out of the normal flow.
pub struct FloatBox {
    pub style: Arc<ComputedValues>,
    pub contents: IndependentFormattingContext,
}

/// A formatting context that lays out independently of its surroundings.
/// Replaced content (images) is unsupported, so flow is the only case.
pub enum IndependentFormattingContext {
    Flow(BlockFormattingContext),
}

/// Relies on std's Arc::clone: the clone shares the pointee, so both handles
/// carry the same absolutely positioned box.
#[verifier::external_body]
pub fn clone_abs_box(a: &Arc<AbsolutelyPositionedBox>) -> (r: Arc<AbsolutelyPositionedBox>)
    ensures
        r == *a,
{
    a.clone()
}

/// A block formatting context: the scope within which floats place
/// themselves.
pub struct BlockFormattingContext {
    pub contents: BlockContainer,
    pub contains_floats: bool,
}

/// A block container: either stacked block-level boxes or one inline
/// formatting context.
pub enum BlockContainer {
    BlockLevelBoxes(Vec<BlockLevelBox>),
    InlineFormattingContext(InlineFormattingContext),
}

/// One block-level box.
pub enum BlockLevelBox {
    SameFormattingContextBlock { style: Arc<ComputedValues>, contents: BlockContainer },
    OutOfFlowAbsolutelyPositionedBox(Arc<AbsolutelyPositionedBox>),
    OutOfFlowFloatBox(FloatBox),
    Independent { style: Arc<ComputedValues>, contents: IndependentFormattingContext },
}

// --- Tree sizes, the termination measure of layout ---

pub open spec fn size_of_bfc(b: BlockFormattingContext) -> nat
    decreases b,
{
    1 + size_of_container(b.contents)
}

pub open spec fn size_of_container(c: BlockContainer) -> nat
    decreases c,
{
    match c {
        BlockContainer::BlockLevelBoxes(v) => 1 + size_of_blocks(v@),
        BlockContainer::InlineFormattingContext(ifc) => 1 + size_of_inlines(
            ifc.inline_level_boxes@,
        ),
    }
}

pub open spec fn size_of_blocks(s: Seq<BlockLevelBox>) -> nat
    decreases s,
{
    if s.len() == 0 {
        0
    } else {
        size_of_blocks(s.drop_last()) + size_of_block(s.last())
    }
}

pub open spec fn size_of_block(b: BlockLevelBox) -> nat
    decreases b,
{
    match b {
        BlockLevelBox::SameFormattingContextBlock { contents, .. } => 1 + size_of_container(
            contents,
        ),
        BlockLevelBox::OutOfFlowAbsolutelyPositionedBox(ab) => 1 + size_of_abs_box(*ab),
        BlockLevelBox::OutOfFlowFloatBox(fb) => 1 + size_of_independent(fb.contents),
        BlockLevelBox::Independent { contents, .. } => 1 + size_of_independent(contents),
    }
}

pub open spec fn size_of_abs_box(b: AbsolutelyPositionedBox) -> nat
    decreases b,
{
    1 + size_of_independent(b.contents)
}

pub open spec fn size_of_independent(c: IndependentFormattingContext) -> nat
    decreases c,
{
    match c {
        IndependentFormattingContext::Flow(bfc) => 1 + size_of_bfc(bfc),
    }
}

pub open spec fn size_of_inlines(s: Seq<InlineLevelBox>) -> nat
    decreases s,
{
    if s.len() == 0 {
        0
    } else {
        size_of_inlines(s.drop_last()) + size_of_inline(s.last())
    }
}

pub open spec fn size_of_inline(b: InlineLevelBox) -> nat
    decreases b,
{
    match b {
        InlineLevelBox::TextRun(_) => 1,
        InlineLevelBox::InlineBox(ib) => 1 + size_of_inlines(ib.children@),
        InlineLevelBox::OutOfFlowAbsolutelyPositionedBox(ab) => 1 + size_of_abs_box(*ab),
        InlineLevelBox::OutOfFlowFloatBox(fb) => 1 + size_of_independent(fb.contents),
    }
}

// --- Well-formedness: the float flag covers every float box ---

/// A block formatting context is well formed when its contents are, and when
/// a cleared float flag really means no float box shares this context.
pub open spec fn bfc_wf(b: BlockFormattingContext) -> bool
    decreases b,
{
    container_wf(b.contents) && (!b.contains_floats ==> container_no_floats(b.contents))
}

pub open spec fn container_wf(c: BlockContainer) -> bool
    decreases c,
{
    match c {
        BlockContainer::BlockLevelBoxes(v) => forall|i: int|
            0 <= i < v@.len() ==> block_wf(#[trigger] v@[i]),
        BlockContainer::InlineFormattingContext(ifc) => ifc_wf(ifc),
    }
}

pub open spec fn block_wf(b: BlockLevelBox) -> bool
    decreases b,
{
    match b {
        BlockLevelBox::SameFormattingContextBlock { contents, .. } => container_wf(contents),
        BlockLevelBox::OutOfFlowAbsolutelyPositionedBox(ab) => abs_box_wf(*ab),
        BlockLevelBox::OutOfFlowFloatBox(fb) => independent_wf(fb.contents),
        BlockLevelBox::Independent { contents, .. } => independent_wf(contents),
    }
}

pub open spec fn abs_box_wf(b: AbsolutelyPositionedBox) -> bool
    decreases b,
{
    independent_wf(b.contents)
}

pub open spec fn independent_wf(c: IndependentFormattingContext) -> bool
    decreases c,
{
    match c {
        IndependentFormattingContext::Flow(bfc) => bfc_wf(bfc),
    }
}

pub open spec fn ifc_wf(ifc: InlineFormattingContext) -> bool
    decreases ifc,
{
    forall|i: int|
        0 <= i < ifc.inline_level_boxes@.len() ==> inline_wf(
            #[trigger] ifc.inline_level_boxes@[i],
        )
}

pub open spec fn inline_wf(b: InlineLevelBox) -> bool
    decreases b,
{
    match b {
        InlineLevelBox::TextRun(_) => true,
        InlineLevelBox::InlineBox(ib) => forall|i: int|
            0 <= i < ib.children@.len() ==> inline_wf(#[trigger] ib.children@[i]),
        InlineLevelBox::OutOfFlowAbsolutelyPositionedBox(ab) => abs_box_wf(*ab),
        InlineLevelBox::OutOfFlowFloatBox(fb) => independent_wf(fb.contents),
    }
}

/// No float box anywhere in this container's own block formatting context.
/// Nested independent contexts carry their own float flags, so they are not
/// descended into.
pub open spec fn container_no_floats(c: BlockContainer) -> bool
    decreases c,
{
    match c {
        BlockContainer::BlockLevelBoxes(v) => forall|i: int|
            0 <= i < v@.len() ==> block_no_floats(#[trigger] v@[i]),
        BlockContainer::InlineFormattingContext(ifc) => inlines_no_floats(ifc.inline_level_boxes@),
    }
}

pub open spec fn block_no_floats(b: BlockLevelBox) -> bool
    decreases b,
{
    match b {
        BlockLevelBox::SameFormattingContextBlock { contents, .. } => container_no_floats(contents),
        BlockLevelBox::OutOfFlowAbsolutelyPositionedBox(_) => true,
        BlockLevelBox::OutOfFlowFloatBox(_) => false,
        BlockLevelBox::Independent { .. } => true,
    }
}

pub open spec fn inlines_no_floats(s: Seq<InlineLevelBox>) -> bool
    decreases s,
{
    forall|i: int| 0 <= i < s.len() ==> inline_no_floats(#[trigger] s[i])
}

pub open spec fn inline_no_floats(b: InlineLevelBox) -> bool
    decreases b,
{
    match b {
        InlineLevelBox::TextRun(_) => true,
        InlineLevelBox::InlineBox(ib) => inlines_no_floats(ib.children@),
        InlineLevelBox::OutOfFlowAbsolutelyPositionedBox(_) => true,
        InlineLevelBox::OutOfFlowFloatBox(_) => false,
    }
}

} // verus!
