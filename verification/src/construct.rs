//! Box-tree construction: one preorder traversal of a document subtree that
//! classifies content into block-level boxes and inline formatting contexts,
//! deferring the construction of nested block containers so that they can be
//! finished in parallel.

use crate::boxes::{
    abs_box_wf, bfc_wf, block_no_floats, block_wf, container_no_floats, container_wf, ifc_wf,
    independent_wf, inline_no_floats,
    inline_wf, inlines_no_floats, AbsolutelyPositionedBox, BlockContainer, BlockFormattingContext,
    BlockLevelBox, ContainsFloats, FloatBox, IndependentFormattingContext, InlineBox,
    InlineFormattingContext, InlineLevelBox, TextRun,
};
use crate::dom::{Document, NodeData, NodeId};
use crate::style::{clone_style, ComputedValues, Display, DisplayInside, DisplayOutside};
use rayon::iter::{IntoParallelIterator, ParallelIterator};
use std::sync::Arc;
use vstd::prelude::*;

verus! {

/// A block-level box whose contents may still have to be constructed.
///
/// Deferring the children of in-flow blocks is what allows finishing
/// sibling boxes through an order-preserving parallel map.
pub enum IntermediateBlockLevelBox {
    SameFormattingContextBlock {
        style: Arc<ComputedValues>,
        contents: IntermediateBlockContainer,
    },
    OutOfFlowAbsolutelyPositionedBox {
        style: Arc<ComputedValues>,
        element: NodeId,
        display_inside: DisplayInside,
    },
    OutOfFlowFloatBox {
        style: Arc<ComputedValues>,
        element: NodeId,
        display_inside: DisplayInside,
    },
}

/// Either an already-built inline formatting context (for an anonymous block
/// box) or the yet-to-be-built block container of a given element's children.
pub enum IntermediateBlockContainer {
    InlineFormattingContext(InlineFormattingContext),
    Deferred { from_children_of: NodeId },
}

/// A builder for one block container: the three traversal accumulators plus
/// the container's root style and the shared anonymous-box style.
pub struct BlockContainerBuilder {
    /// The style of the container root, absent only for the document root.
    pub parent_style: Option<Arc<ComputedValues>>,
    /// Completed block-level boxes, in document order.
    pub block_level_boxes: Vec<IntermediateBlockLevelBox>,
    /// The in-progress inline formatting context.
    pub ongoing_inline_formatting_context: InlineFormattingContext,
    /// In-progress inline boxes, outermost first; its depth is the current
    /// inline nesting depth of the traversal.
    pub ongoing_inline_boxes_stack: Vec<InlineBox>,
    /// The lazily created style of this container's anonymous block boxes.
    pub anonymous_style: Option<Arc<ComputedValues>>,
    /// Whether any float box was found so far.
    pub contains_floats: ContainsFloats,
}

// --- Spec views of the builder state ---

/// The list inline-level boxes are currently appended to: the children of
/// the innermost open inline box, or the ongoing inline formatting context.
pub open spec fn spec_current_inlines(b: BlockContainerBuilder) -> Seq<InlineLevelBox> {
    if b.ongoing_inline_boxes_stack@.len() > 0 {
        b.ongoing_inline_boxes_stack@.last().children@
    } else {
        b.ongoing_inline_formatting_context.inline_level_boxes@
    }
}

/// The style new text runs inherit: the innermost open inline box's style,
/// or the container's parent style.
pub open spec fn spec_current_parent_style(b: BlockContainerBuilder) -> Option<
    Arc<ComputedValues>,
> {
    if b.ongoing_inline_boxes_stack@.len() > 0 {
        Some(b.ongoing_inline_boxes_stack@.last().style)
    } else {
        b.parent_style
    }
}

/// No float box among the already-collected intermediates. Deferred
/// children are accounted for later, when they are built.
pub open spec fn ib_no_floats(ib: IntermediateBlockLevelBox) -> bool {
    match ib {
        IntermediateBlockLevelBox::SameFormattingContextBlock { contents, .. } => match contents {
            IntermediateBlockContainer::InlineFormattingContext(ifc) => inlines_no_floats(
                ifc.inline_level_boxes@,
            ),
            IntermediateBlockContainer::Deferred { .. } => true,
        },
        IntermediateBlockLevelBox::OutOfFlowAbsolutelyPositionedBox { .. } => true,
        IntermediateBlockLevelBox::OutOfFlowFloatBox { .. } => false,
    }
}

pub open spec fn ibs_no_floats(s: Seq<IntermediateBlockLevelBox>) -> bool {
    forall|i: int| 0 <= i < s.len() ==> ib_no_floats(#[trigger] s[i])
}

/// Already-built content inside an intermediate box is well formed.
pub open spec fn ib_wf(ib: IntermediateBlockLevelBox) -> bool {
    match ib {
        IntermediateBlockLevelBox::SameFormattingContextBlock { contents, .. } => match contents {
            IntermediateBlockContainer::InlineFormattingContext(ifc) => ifc_wf(ifc),
            IntermediateBlockContainer::Deferred { .. } => true,
        },
        IntermediateBlockLevelBox::OutOfFlowAbsolutelyPositionedBox { .. } => true,
        IntermediateBlockLevelBox::OutOfFlowFloatBox { .. } => true,
    }
}

pub open spec fn ibs_wf(s: Seq<IntermediateBlockLevelBox>) -> bool {
    forall|i: int| 0 <= i < s.len() ==> ib_wf(#[trigger] s[i])
}

/// The node an intermediate defers to, or `hi` where it defers to none.
/// Every deferred node lies strictly between `lo` and `hi`, which bounds the
/// recursion that finishes the box.
pub open spec fn ib_bound(ib: IntermediateBlockLevelBox, lo: int, hi: int) -> bool {
    match ib {
        IntermediateBlockLevelBox::SameFormattingContextBlock { contents, .. } => match contents {
            IntermediateBlockContainer::InlineFormattingContext(_) => true,
            IntermediateBlockContainer::Deferred { from_children_of } => lo < from_children_of < hi,
        },
        IntermediateBlockLevelBox::OutOfFlowAbsolutelyPositionedBox { element, .. } => lo < element
            < hi,
        IntermediateBlockLevelBox::OutOfFlowFloatBox { element, .. } => lo < element < hi,
    }
}

pub open spec fn ibs_bound(s: Seq<IntermediateBlockLevelBox>, lo: int, hi: int) -> bool {
    forall|i: int| 0 <= i < s.len() ==> ib_bound(#[trigger] s[i], lo, hi)
}

pub open spec fn stack_wf(s: Seq<InlineBox>) -> bool {
    forall|i: int| 0 <= i < s.len() ==> inline_box_children_wf(#[trigger] s[i])
}

pub open spec fn inline_box_children_wf(b: InlineBox) -> bool {
    forall|j: int| 0 <= j < b.children@.len() ==> inline_wf(#[trigger] b.children@[j])
}

pub open spec fn stack_no_floats(s: Seq<InlineBox>) -> bool {
    forall|i: int| 0 <= i < s.len() ==> inlines_no_floats(#[trigger] s[i].children@)
}

/// The builder's invariant: collected content is well formed, and while the
/// float flag is clear there is no float box anywhere in it.
pub open spec fn builder_inv(b: BlockContainerBuilder) -> bool {
    &&& ibs_wf(b.block_level_boxes@)
    &&& ifc_wf(b.ongoing_inline_formatting_context)
    &&& stack_wf(b.ongoing_inline_boxes_stack@)
    &&& b.contains_floats == ContainsFloats::No ==> {
        &&& ibs_no_floats(b.block_level_boxes@)
        &&& inlines_no_floats(b.ongoing_inline_formatting_context.inline_level_boxes@)
        &&& stack_no_floats(b.ongoing_inline_boxes_stack@)
    }
}

/// Everything except the current inline-level list is unchanged, and of the
/// innermost open inline box only the children may have changed.
pub open spec fn same_but_current_inlines(
    old: BlockContainerBuilder,
    new: BlockContainerBuilder,
) -> bool {
    &&& new.parent_style == old.parent_style
    &&& new.block_level_boxes == old.block_level_boxes
    &&& new.anonymous_style == old.anonymous_style
    &&& new.contains_floats == old.contains_floats
    &&& new.ongoing_inline_boxes_stack@.len() == old.ongoing_inline_boxes_stack@.len()
    &&& if old.ongoing_inline_boxes_stack@.len() > 0 {
        let n = old.ongoing_inline_boxes_stack@.len();
        &&& new.ongoing_inline_formatting_context == old.ongoing_inline_formatting_context
        &&& forall|i: int|
            0 <= i < n - 1 ==> new.ongoing_inline_boxes_stack@[i]
                == old.ongoing_inline_boxes_stack@[i]
        &&& new.ongoing_inline_boxes_stack@.last().style
            == old.ongoing_inline_boxes_stack@.last().style
        &&& new.ongoing_inline_boxes_stack@.last().first_fragment
            == old.ongoing_inline_boxes_stack@.last().first_fragment
        &&& new.ongoing_inline_boxes_stack@.last().last_fragment
            == old.ongoing_inline_boxes_stack@.last().last_fragment
    } else {
        new.ongoing_inline_boxes_stack@ == old.ongoing_inline_boxes_stack@
    }
}

impl BlockContainerBuilder {
    /// A fresh builder for the children of a container with the given style.
    pub fn new(parent_style: Option<Arc<ComputedValues>>) -> (r: BlockContainerBuilder)
        ensures
            r.parent_style == parent_style,
            r.block_level_boxes@.len() == 0,
            r.ongoing_inline_formatting_context.inline_level_boxes@.len() == 0,
            r.ongoing_inline_boxes_stack@.len() == 0,
            r.anonymous_style is None,
            r.contains_floats == ContainsFloats::No,
            builder_inv(r),
    {
        BlockContainerBuilder {
            parent_style,
            block_level_boxes: Vec::new(),
            ongoing_inline_formatting_context: InlineFormattingContext {
                inline_level_boxes: Vec::new(),
            },
            ongoing_inline_boxes_stack: Vec::new(),
            anonymous_style: None,
            contains_floats: ContainsFloats::No,
        }
    }

    /// The style that a new text run would inherit right now.
    pub fn current_parent_style(&self) -> (r: Option<Arc<ComputedValues>>)
        ensures
            r == spec_current_parent_style(*self),
    {
        let n = self.ongoing_inline_boxes_stack.len();
        if n > 0 {
            Some(clone_style(&self.ongoing_inline_boxes_stack[n - 1].style))
        } else {
            match &self.parent_style {
                Some(s) => Some(clone_style(s)),
                None => None,
            }
        }
    }

    /// Whether any inline-level content is currently open.
    pub fn has_ongoing_inline_formatting_context(&self) -> (r: bool)
        ensures
            r == (spec_current_inlines(*self).len() > 0
                || self.ongoing_inline_boxes_stack@.len() > 0
                || self.ongoing_inline_formatting_context.inline_level_boxes@.len() > 0),
    {
        self.ongoing_inline_formatting_context.inline_level_boxes.len() > 0
            || self.ongoing_inline_boxes_stack.len() > 0
    }

    /// Append one inline-level box to the current inline-level list.
    pub fn push_inline_level_box(&mut self, b: InlineLevelBox)
        ensures
            same_but_current_inlines(*old(self), *final(self)),
            spec_current_inlines(*final(self)) == spec_current_inlines(*old(self)).push(b),
    {
        let n = self.ongoing_inline_boxes_stack.len();
        if n > 0 {
            self.ongoing_inline_boxes_stack[n - 1].children.push(b);
        } else {
            self.ongoing_inline_formatting_context.inline_level_boxes.push(b);
        }
    }

    /// Close the innermost open inline box: it is the last fragment of its
    /// element, and it becomes an inline-level child of what encloses it.
    pub fn end_ongoing_inline_box(&mut self)
        requires
            old(self).ongoing_inline_boxes_stack@.len() > 0,
        ensures
            spec_ended_inline_box(*old(self), *final(self)),
    {
        let popped = self.ongoing_inline_boxes_stack.pop();
        match popped {
            Some(mut last_ongoing) => {
                last_ongoing.last_fragment = true;
                self.push_inline_level_box(InlineLevelBox::InlineBox(last_ongoing));
            },
            None => {},
        }
    }
}

/// What `end_ongoing_inline_box` does: pop the innermost open inline box,
/// mark it as the last fragment of its element, and append it to the
/// enclosing inline-level list.
pub open spec fn spec_ended_inline_box(
    prev: BlockContainerBuilder,
    next: BlockContainerBuilder,
) -> bool {
    let n = prev.ongoing_inline_boxes_stack@.len() as int;
    let l = prev.ongoing_inline_boxes_stack@.last();
    let closed = InlineLevelBox::InlineBox(
        InlineBox {
            style: l.style,
            first_fragment: l.first_fragment,
            last_fragment: true,
            children: l.children,
        },
    );
    &&& next.parent_style == prev.parent_style
    &&& next.block_level_boxes == prev.block_level_boxes
    &&& next.anonymous_style == prev.anonymous_style
    &&& next.contains_floats == prev.contains_floats
    &&& next.ongoing_inline_boxes_stack@.len() == n - 1
    &&& if n == 1 {
        &&& next.ongoing_inline_boxes_stack@ == prev.ongoing_inline_boxes_stack@.drop_last()
        &&& next.ongoing_inline_formatting_context.inline_level_boxes@
            == prev.ongoing_inline_formatting_context.inline_level_boxes@.push(closed)
    } else {
        &&& next.ongoing_inline_formatting_context == prev.ongoing_inline_formatting_context
        &&& forall|i: int|
            0 <= i < n - 2 ==> next.ongoing_inline_boxes_stack@[i]
                == prev.ongoing_inline_boxes_stack@[i]
        &&& next.ongoing_inline_boxes_stack@[n - 2].style
            == prev.ongoing_inline_boxes_stack@[n - 2].style
        &&& next.ongoing_inline_boxes_stack@[n - 2].first_fragment
            == prev.ongoing_inline_boxes_stack@[n - 2].first_fragment
        &&& next.ongoing_inline_boxes_stack@[n - 2].last_fragment
            == prev.ongoing_inline_boxes_stack@[n - 2].last_fragment
        &&& next.ongoing_inline_boxes_stack@[n - 2].children@
            == prev.ongoing_inline_boxes_stack@[n - 2].children@.push(closed)
    }
}

/// The current inline-level list as it is after the innermost open inline
/// box is popped: the children of the next open inline box, or the ongoing
/// inline formatting context.
pub open spec fn spec_current_inlines_outer(b: BlockContainerBuilder) -> Seq<InlineLevelBox> {
    if b.ongoing_inline_boxes_stack@.len() > 1 {
        b.ongoing_inline_boxes_stack@[b.ongoing_inline_boxes_stack@.len() - 2].children@
    } else {
        b.ongoing_inline_formatting_context.inline_level_boxes@
    }
}

// --- Whitespace collapsing, per the CSS text model approximation ---

/// ASCII whitespace: space, tab, line feed, form feed, carriage return.
pub open spec fn is_ws(b: u8) -> bool {
    b == 32 || b == 9 || b == 10 || b == 12 || b == 13
}

/// Index of the first non-whitespace byte at or after `i`, or the length.
pub open spec fn first_non_ws(s: Seq<u8>, i: int) -> int
    decreases s.len() - i,
{
    if i < 0 || i >= s.len() {
        s.len() as int
    } else if is_ws(s[i]) {
        first_non_ws(s, i + 1)
    } else {
        i
    }
}

/// The bytes of `s` from `i` on, with every whitespace run collapsed into a
/// single space; `after_space` says whether a space was just emitted.
pub open spec fn collapse_from(s: Seq<u8>, i: int, after_space: bool) -> Seq<u8>
    decreases s.len() - i,
{
    if i < 0 || i >= s.len() {
        Seq::empty()
    } else if is_ws(s[i]) {
        if after_space {
            collapse_from(s, i + 1, true)
        } else {
            seq![32u8] + collapse_from(s, i + 1, true)
        }
    } else {
        seq![s[i]] + collapse_from(s, i + 1, false)
    }
}

/// Whether a text run's collapsed text ends in a space.
pub open spec fn ends_in_space(s: Seq<u8>) -> bool {
    s.len() > 0 && s.last() == 32
}

/// The search that decides whether leading whitespace is preserved: walk the
/// inline-level boxes already collected, from the most recent backwards,
/// descending into inline boxes from their end and skipping out-of-flow
/// boxes. `Some(preserved)` once a text run is found, `None` at paragraph
/// start.
pub open spec fn spec_whitespace_search(s: Seq<InlineLevelBox>) -> Option<bool>
    decreases s,
{
    if s.len() == 0 {
        None
    } else {
        match s.last() {
            InlineLevelBox::TextRun(r) => Some(!ends_in_space(r.text@)),
            InlineLevelBox::OutOfFlowAbsolutelyPositionedBox(_) => spec_whitespace_search(
                s.drop_last(),
            ),
            InlineLevelBox::OutOfFlowFloatBox(_) => spec_whitespace_search(s.drop_last()),
            InlineLevelBox::InlineBox(b) => match spec_whitespace_search(b.children@) {
                Some(v) => Some(v),
                None => spec_whitespace_search(s.drop_last()),
            },
        }
    }
}

/// Whether a text node's leading whitespace survives collapsing: it must
/// exist, and the most recent text run must not already end in a space; at
/// paragraph start it is dropped.
pub open spec fn spec_leading_preserved(cur: Seq<InlineLevelBox>, input: Seq<u8>) -> bool {
    input.len() > 0 && is_ws(input[0]) && spec_whitespace_search(cur) == Some(true)
}

/// The bytes that a text node contributes to the current text run.
pub open spec fn spec_text_contribution(cur: Seq<InlineLevelBox>, input: Seq<u8>) -> Seq<u8> {
    let lead: Seq<u8> = if spec_leading_preserved(cur, input) {
        seq![32u8]
    } else {
        Seq::empty()
    };
    lead + collapse_from(input, first_non_ws(input, 0), false)
}

fn is_ascii_ws(b: u8) -> (r: bool)
    ensures
        r == is_ws(b),
{
    b == 32 || b == 9 || b == 10 || b == 12 || b == 13
}

/// The executable side of `spec_whitespace_search`, over `boxes[..n]`.
fn whitespace_search(boxes: &Vec<InlineLevelBox>, n: usize) -> (r: Option<bool>)
    requires
        n <= boxes@.len(),
    ensures
        r == spec_whitespace_search(boxes@.subrange(0, n as int)),
    decreases boxes@.subrange(0, n as int),
{
    if n == 0 {
        None
    } else {
        proof {
            assert(boxes@.subrange(0, n as int).last() == boxes@[n - 1]);
            assert(boxes@.subrange(0, n as int).drop_last() =~= boxes@.subrange(0, n - 1));
        }
        match &boxes[n - 1] {
            InlineLevelBox::TextRun(r) => {
                let t = r.text.len();
                Some(!(t > 0 && r.text[t - 1] == 32))
            },
            InlineLevelBox::OutOfFlowAbsolutelyPositionedBox(_) => whitespace_search(boxes, n - 1),
            InlineLevelBox::OutOfFlowFloatBox(_) => whitespace_search(boxes, n - 1),
            InlineLevelBox::InlineBox(b) => {
                let m = b.children.len();
                proof {
                    assert(b.children@.subrange(0, m as int) =~= b.children@);
                }
                match whitespace_search(&b.children, m) {
                    Some(v) => Some(v),
                    None => whitespace_search(boxes, n - 1),
                }
            },
        }
    }
}

/// What `handle_text` does to the current inline-level list: nothing when
/// the text collapses to nothing; otherwise its contribution is appended to
/// the trailing text run, or starts a new text run inheriting the current
/// parent style.
pub open spec fn spec_handled_text(
    prev: BlockContainerBuilder,
    next: BlockContainerBuilder,
    input: Seq<u8>,
) -> bool {
    let cur = spec_current_inlines(prev);
    let bytes = spec_text_contribution(cur, input);
    if bytes.len() == 0 {
        next == prev
    } else {
        &&& same_but_current_inlines(prev, next)
        &&& spec_attached_text(cur, spec_current_inlines(next), spec_current_parent_style(prev), bytes)
    }
}

/// `newcur` is `cur` with `bytes` attached: appended to a trailing text run,
/// or pushed as a new text run styled by `parent_style`.
pub open spec fn spec_attached_text(
    cur: Seq<InlineLevelBox>,
    newcur: Seq<InlineLevelBox>,
    parent_style: Option<Arc<ComputedValues>>,
    bytes: Seq<u8>,
) -> bool {
    if cur.len() > 0 && cur.last() is TextRun {
        &&& newcur.len() == cur.len()
        &&& newcur.drop_last() == cur.drop_last()
        &&& newcur.last() matches InlineLevelBox::TextRun(nr) && cur.last()
            matches InlineLevelBox::TextRun(pr) && nr.text@ == pr.text@ + bytes
            && nr.parent_style == pr.parent_style
    } else {
        &&& newcur.len() == cur.len() + 1
        &&& newcur.drop_last() == cur
        &&& newcur.last() matches InlineLevelBox::TextRun(nr) && nr.text@ == bytes && Some(
            nr.parent_style,
        ) == parent_style
    }
}

/// Attaching a text run to the current inline-level list keeps the builder's
/// invariant: a text run is well formed and is no float box.
proof fn lemma_attach_preserves_inv(
    prev: BlockContainerBuilder,
    next: BlockContainerBuilder,
    cur: Seq<InlineLevelBox>,
    bytes: Seq<u8>,
)
    requires
        builder_inv(prev),
        cur == spec_current_inlines(prev),
        same_but_current_inlines(prev, next),
        spec_attached_text(cur, spec_current_inlines(next), spec_current_parent_style(prev), bytes),
    ensures
        builder_inv(next),
{
    let newcur = spec_current_inlines(next);
    let n = prev.ongoing_inline_boxes_stack@.len() as int;
    // every element of the current list is well formed (and float-free while
    // the flag is clear), before the attach
    assert(forall|j: int| 0 <= j < cur.len() ==> inline_wf(#[trigger] cur[j])) by {
        if n > 0 {
            assert(inline_box_children_wf(prev.ongoing_inline_boxes_stack@[n - 1]));
        }
    }
    if prev.contains_floats == ContainsFloats::No {
        assert(inlines_no_floats(cur)) by {
            if n > 0 {
                assert(inlines_no_floats(prev.ongoing_inline_boxes_stack@[n - 1].children@));
            }
        }
    }
    // and after
    assert forall|j: int| 0 <= j < newcur.len() implies inline_wf(#[trigger] newcur[j]) && (
    prev.contains_floats == ContainsFloats::No ==> inline_no_floats(newcur[j])) by {
        if j < newcur.len() - 1 {
            assert(newcur[j] == newcur.drop_last()[j]);
            if cur.len() > 0 && cur.last() is TextRun {
                assert(newcur.drop_last()[j] == cur.drop_last()[j]);
                assert(cur.drop_last()[j] == cur[j]);
            } else {
                assert(newcur.drop_last()[j] == cur[j]);
            }
            if prev.contains_floats == ContainsFloats::No {
                assert(inline_no_floats(cur[j]));
            }
        }
    }
    // reassemble the invariant
    if n > 0 {
        assert forall|i: int|
            0 <= i < next.ongoing_inline_boxes_stack@.len() implies inline_box_children_wf(
            #[trigger] next.ongoing_inline_boxes_stack@[i],
        ) by {
            if i < n - 1 {
                assert(next.ongoing_inline_boxes_stack@[i] == prev.ongoing_inline_boxes_stack@[i]);
                assert(inline_box_children_wf(prev.ongoing_inline_boxes_stack@[i]));
            } else {
                assert(next.ongoing_inline_boxes_stack@[i].children@ == newcur);
            }
        }
        if next.contains_floats == ContainsFloats::No {
            assert forall|i: int|
                0 <= i < next.ongoing_inline_boxes_stack@.len() implies inlines_no_floats(
                #[trigger] next.ongoing_inline_boxes_stack@[i].children@,
            ) by {
                if i < n - 1 {
                    assert(next.ongoing_inline_boxes_stack@[i]
                        == prev.ongoing_inline_boxes_stack@[i]);
                    assert(inlines_no_floats(prev.ongoing_inline_boxes_stack@[i].children@));
                } else {
                    assert(next.ongoing_inline_boxes_stack@[i].children@ == newcur);
                }
            }
        }
    }
}

/// Attach collapsed text to an inline-level list.
fn attach_text(
    list: &mut Vec<InlineLevelBox>,
    parent_style: Option<Arc<ComputedValues>>,
    bytes: Vec<u8>,
)
    requires
        bytes@.len() > 0,
        (old(list)@.len() > 0 && old(list)@.last() is TextRun) || parent_style is Some,
    ensures
        spec_attached_text(old(list)@, final(list)@, parent_style, bytes@),
{
    let mut bytes = bytes;
    let mut appended = false;
    if list.len() > 0 {
        match list.pop() {
            Some(last) => match last {
                InlineLevelBox::TextRun(mut r) => {
                    r.text.append(&mut bytes);
                    list.push(InlineLevelBox::TextRun(r));
                    appended = true;
                    proof {
                        assert(list@.drop_last() =~= old(list)@.drop_last());
                    }
                },
                other => {
                    list.push(other);
                    proof {
                        assert(list@ =~= old(list)@);
                    }
                },
            },
            None => {},
        }
    }
    if !appended {
        match parent_style {
            Some(ps) => {
                list.push(InlineLevelBox::TextRun(TextRun { parent_style: ps, text: bytes }));
                proof {
                    assert(list@.drop_last() =~= old(list)@);
                }
            },
            None => {
                proof {
                    assert(false);
                }
            },
        }
    }
}

impl BlockContainerBuilder {
    /// Handle one text node: collapse its whitespace and attach what is left
    /// to the current inline-level content.
    pub fn handle_text(&mut self, input: &Vec<u8>)
        requires
            builder_inv(*old(self)),
            spec_text_contribution(spec_current_inlines(*old(self)), input@).len() > 0 ==> (
            spec_current_inlines(*old(self)).len() > 0 && spec_current_inlines(*old(self)).last()
                is TextRun) || spec_current_parent_style(*old(self)) is Some,
        ensures
            spec_handled_text(*old(self), *final(self), input@),
            builder_inv(*final(self)),
    {
        let ghost cur = spec_current_inlines(*old(self));
        let ghost contribution = spec_text_contribution(cur, input@);
        let (leading_whitespace, first_non_white) = self.handle_leading_whitespace(input);
        let mut i = first_non_white;
        if leading_whitespace || i < input.len() {
            // Collapse the input into the bytes it contributes.
            let mut collected: Vec<u8> = Vec::new();
            if leading_whitespace {
                collected.push(32u8);
            }
            let mut after_space = false;
            while i < input.len()
                invariant
                    i <= input@.len(),
                    collected@ + collapse_from(input@, i as int, after_space) == contribution,
                decreases input@.len() - i,
            {
                let b = input[i];
                if is_ascii_ws(b) {
                    if !after_space {
                        collected.push(32u8);
                    }
                    after_space = true;
                } else {
                    collected.push(b);
                    after_space = false;
                }
                i += 1;
            }
            proof {
                assert(collected@ =~= collected@ + collapse_from(
                    input@,
                    i as int,
                    after_space,
                ));
                assert(contribution.len() > 0) by {
                    if !leading_whitespace {
                        assert(collapse_from(input@, first_non_white as int, false).len() >= 1);
                    }
                }
            }
            let ps = self.current_parent_style();
            let n = self.ongoing_inline_boxes_stack.len();
            if n > 0 {
                attach_text(&mut self.ongoing_inline_boxes_stack[n - 1].children, ps, collected);
            } else {
                attach_text(
                    &mut self.ongoing_inline_formatting_context.inline_level_boxes,
                    ps,
                    collected,
                );
            }
            proof {
                lemma_attach_preserves_inv(*old(self), *final(self), cur, contribution);
            }
        } else {
            proof {
                assert(contribution =~= Seq::<u8>::empty());
            }
        }
    }

    /// Decide what a text node's leading whitespace becomes.
    ///
    /// Returns whether a single leading space is preserved, and the index of
    /// the first non-whitespace byte (the length if there is none). This is
    /// an approximation of the CSS white-space model: only content already
    /// collected in the current inline-level list is consulted.
    pub fn handle_leading_whitespace(&self, text: &Vec<u8>) -> (r: (bool, usize))
        ensures
            r.0 == spec_leading_preserved(spec_current_inlines(*self), text@),
            r.1 == first_non_ws(text@, 0),
            r.1 <= text@.len(),
            r.1 < text@.len() ==> !is_ws(text@[r.1 as int]),
    {
        if text.len() == 0 || !is_ascii_ws(text[0]) {
            return (false, 0);
        }
        let cur: &Vec<InlineLevelBox> = {
            let n = self.ongoing_inline_boxes_stack.len();
            if n > 0 {
                &self.ongoing_inline_boxes_stack[n - 1].children
            } else {
                &self.ongoing_inline_formatting_context.inline_level_boxes
            }
        };
        proof {
            assert(cur@.subrange(0, cur@.len() as int) =~= cur@);
        }
        let preserved = match whitespace_search(cur, cur.len()) {
            Some(v) => v,
            None => false,  // Paragraph start
        };
        let mut i: usize = 1;
        while i < text.len() && is_ascii_ws(text[i])
            invariant
                1 <= i <= text@.len(),
                first_non_ws(text@, 0) == first_non_ws(text@, i as int),
                forall|j: int| 0 <= j < i ==> is_ws(#[trigger] text@[j]),
            decreases text@.len() - i,
        {
            i += 1;
        }
        (preserved, i)
    }
}

// --- Element handling ---

/// What every traversal step leaves intact: the container's own style, the
/// depth and identity (style, closedness) of the open inline boxes, the
/// already-collected block-level boxes, and a float flag that only ever
/// moves towards `Yes`. New block-level boxes may be appended, all deferring
/// to nodes in `(lo, hi)`.
pub open spec fn builder_frame(
    prev: BlockContainerBuilder,
    next: BlockContainerBuilder,
    lo: int,
    hi: int,
) -> bool {
    &&& next.parent_style == prev.parent_style
    &&& next.ongoing_inline_boxes_stack@.len() == prev.ongoing_inline_boxes_stack@.len()
    &&& forall|i: int|
        0 <= i < prev.ongoing_inline_boxes_stack@.len() ==> #[trigger] next.ongoing_inline_boxes_stack@[i].style
            == prev.ongoing_inline_boxes_stack@[i].style
            && next.ongoing_inline_boxes_stack@[i].last_fragment
            == prev.ongoing_inline_boxes_stack@[i].last_fragment
    &&& next.block_level_boxes@.len() >= prev.block_level_boxes@.len()
    &&& next.block_level_boxes@.subrange(0, prev.block_level_boxes@.len() as int)
        == prev.block_level_boxes@
    &&& ibs_bound(
        next.block_level_boxes@.skip(prev.block_level_boxes@.len() as int),
        lo,
        hi,
    )
    &&& (prev.contains_floats == ContainsFloats::Yes ==> next.contains_floats
        == ContainsFloats::Yes)
}

/// No text node stands where no style is available to start a text run:
/// among the children of `node`, and recursively behind `display: contents`
/// elements, whose children are spliced into the same container.
pub open spec fn no_stray_text(doc: Document, node: NodeId) -> bool
    decreases doc.nodes@.len() - node,
    when doc.wf() && (node as int) < doc.nodes@.len()
{
    forall|j: int|
        0 <= j < doc.nodes@[node as int].children@.len() ==> {
            let c = #[trigger] doc.nodes@[node as int].children@[j];
            &&& !(doc.nodes@[c as int].data is Text)
            &&& match doc.nodes@[c as int].data {
                NodeData::Element { style } => (*style).display is Contents ==> no_stray_text(
                    doc,
                    c,
                ),
                _ => true,
            }
        }
}

/// `b` is the chain of fragmented copies of the open inline boxes
/// `stack[k..]`, outermost first: each copy keeps its box's style, children
/// and `first_fragment` flag, is not a last fragment, and holds the next
/// inner copy as one extra child.
pub open spec fn is_fragmented_chain(s: Seq<InlineBox>, k: int, b: InlineLevelBox) -> bool
    decreases s.len() - k,
    when 0 <= k < s.len()
{
    b matches InlineLevelBox::InlineBox(ib) && {
        &&& ib.style == s[k].style
        &&& ib.first_fragment == s[k].first_fragment
        &&& !ib.last_fragment
        &&& if k == s.len() - 1 {
            ib.children@ == s[k].children@
        } else {
            &&& ib.children@.len() == s[k].children@.len() + 1
            &&& ib.children@.drop_last() == s[k].children@
            &&& is_fragmented_chain(s, k + 1, ib.children@.last())
        }
    }
}

/// A fragmented chain is well formed, and float-free when the boxes it was
/// made from are.
proof fn lemma_chain_wf(s: Seq<InlineBox>, k: int, b: InlineLevelBox, floats: bool)
    requires
        0 <= k < s.len(),
        is_fragmented_chain(s, k, b),
        stack_wf(s),
        floats ==> stack_no_floats(s),
    ensures
        inline_wf(b),
        floats ==> inline_no_floats(b),
    decreases s.len() - k,
{
    assert(inline_box_children_wf(s[k]));
    if floats {
        assert(inlines_no_floats(s[k].children@));
    }
    match b {
        InlineLevelBox::InlineBox(ib) => {
            if k < s.len() - 1 {
                lemma_chain_wf(s, k + 1, ib.children@.last(), floats);
                assert forall|j: int| 0 <= j < ib.children@.len() implies inline_wf(
                    #[trigger] ib.children@[j],
                ) by {
                    if j < ib.children@.len() - 1 {
                        assert(ib.children@[j] == ib.children@.drop_last()[j]);
                        assert(inline_wf(s[k].children@[j]));
                    }
                }
                if floats {
                    assert forall|j: int| 0 <= j < ib.children@.len() implies inline_no_floats(
                        #[trigger] ib.children@[j],
                    ) by {
                        if j < ib.children@.len() - 1 {
                            assert(ib.children@[j] == ib.children@.drop_last()[j]);
                            assert(inline_no_floats(s[k].children@[j]));
                        }
                    }
                }
            } else {
                assert forall|j: int| 0 <= j < ib.children@.len() implies inline_wf(
                    #[trigger] ib.children@[j],
                ) by {
                    assert(inline_wf(s[k].children@[j]));
                }
                if floats {
                    assert forall|j: int| 0 <= j < ib.children@.len() implies inline_no_floats(
                        #[trigger] ib.children@[j],
                    ) by {
                        assert(inline_no_floats(s[k].children@[j]));
                    }
                }
            }
        },
        _ => {},
    }
}

/// What closing the ongoing inline formatting context does: nothing while it
/// is empty (there is never an empty anonymous block); otherwise it becomes
/// the contents of an anonymous same-formatting-context block, styled by the
/// container's one lazily created anonymous style.
pub open spec fn spec_closed_ifc(prev: BlockContainerBuilder, next: BlockContainerBuilder) -> bool {
    if prev.ongoing_inline_formatting_context.inline_level_boxes@.len() == 0 {
        next == prev
    } else {
        &&& next.parent_style == prev.parent_style
        &&& next.ongoing_inline_boxes_stack == prev.ongoing_inline_boxes_stack
        &&& next.contains_floats == prev.contains_floats
        &&& next.ongoing_inline_formatting_context.inline_level_boxes@.len() == 0
        &&& next.anonymous_style matches Some(anon) && {
            &&& match prev.anonymous_style {
                Some(prev_anon) => anon == prev_anon,
                None => *anon == crate::style::spec_initial_style(),
            }
            &&& next.block_level_boxes@ == prev.block_level_boxes@.push(
                IntermediateBlockLevelBox::SameFormattingContextBlock {
                    style: anon,
                    contents: IntermediateBlockContainer::InlineFormattingContext(
                        prev.ongoing_inline_formatting_context,
                    ),
                },
            )
        }
    }
}

impl BlockContainerBuilder {
    /// Close the ongoing inline formatting context into an anonymous block
    /// box, so that a block-level box can follow it.
    pub fn end_ongoing_inline_formatting_context(&mut self)
        requires
            builder_inv(*old(self)),
        ensures
            spec_closed_ifc(*old(self), *final(self)),
            builder_inv(*final(self)),
    {
        if self.ongoing_inline_formatting_context.inline_level_boxes.len() == 0 {
            // There should never be an empty inline formatting context.
            return ;
        }
        let anonymous_style = match &self.anonymous_style {
            Some(s) => clone_style(s),
            None => {
                let created = match &self.parent_style {
                    Some(p) => ComputedValues::anonymous_inheriting_from(Some(&*p)),
                    None => {
                        // The parent is the document node: anonymous boxes
                        // inherit from initial values.
                        ComputedValues::anonymous_inheriting_from(None)
                    },
                };
                self.anonymous_style = Some(clone_style(&created));
                created
            },
        };
        let mut taken: Vec<InlineLevelBox> = Vec::new();
        std::mem::swap(&mut taken, &mut self.ongoing_inline_formatting_context.inline_level_boxes);
        self.block_level_boxes.push(
            IntermediateBlockLevelBox::SameFormattingContextBlock {
                style: anonymous_style,
                contents: IntermediateBlockContainer::InlineFormattingContext(
                    InlineFormattingContext { inline_level_boxes: taken },
                ),
            },
        );
    }
}

/// What `handle_block_level_element` does: every open inline box is
/// fragmented around the new block-level box (the copy before the block
/// keeps the accumulated children and the `first_fragment` flag; the live
/// box resumes afterwards with `first_fragment` cleared and no children),
/// the chain of copies is pushed into the ongoing inline formatting context,
/// that context is closed, and the block-level box itself is appended with
/// its children deferred.
pub open spec fn spec_handled_block(
    prev: BlockContainerBuilder,
    next: BlockContainerBuilder,
    style: Arc<ComputedValues>,
    element: NodeId,
) -> bool {
    let n = prev.ongoing_inline_boxes_stack@.len() as int;
    let newblock = IntermediateBlockLevelBox::SameFormattingContextBlock {
        style,
        contents: IntermediateBlockContainer::Deferred { from_children_of: element },
    };
    &&& next.parent_style == prev.parent_style
    &&& next.contains_floats == prev.contains_floats
    &&& next.ongoing_inline_formatting_context.inline_level_boxes@.len() == 0
    &&& next.ongoing_inline_boxes_stack@.len() == n
    &&& forall|i: int|
        0 <= i < n ==> {
            &&& #[trigger] next.ongoing_inline_boxes_stack@[i].style
                == prev.ongoing_inline_boxes_stack@[i].style
            &&& next.ongoing_inline_boxes_stack@[i].last_fragment
                == prev.ongoing_inline_boxes_stack@[i].last_fragment
            &&& next.ongoing_inline_boxes_stack@[i].first_fragment == false
            &&& next.ongoing_inline_boxes_stack@[i].children@.len() == 0
        }
    &&& if n == 0 && prev.ongoing_inline_formatting_context.inline_level_boxes@.len() == 0 {
        &&& next.block_level_boxes@ == prev.block_level_boxes@.push(newblock)
        &&& next.anonymous_style == prev.anonymous_style
    } else {
        &&& next.block_level_boxes@.len() == prev.block_level_boxes@.len() + 2
        &&& next.block_level_boxes@.subrange(0, prev.block_level_boxes@.len() as int)
            == prev.block_level_boxes@
        &&& next.block_level_boxes@.last() == newblock
        &&& next.anonymous_style matches Some(anon) && {
            &&& match prev.anonymous_style {
                Some(prev_anon) => anon == prev_anon,
                None => *anon == crate::style::spec_initial_style(),
            }
            &&& next.block_level_boxes@[prev.block_level_boxes@.len() as int]
                matches IntermediateBlockLevelBox::SameFormattingContextBlock {
                style: astyle,
                contents: IntermediateBlockContainer::InlineFormattingContext(f),
            } && astyle == anon && (if n == 0 {
                f.inline_level_boxes@ == prev.ongoing_inline_formatting_context.inline_level_boxes@
            } else {
                &&& f.inline_level_boxes@.len()
                    == prev.ongoing_inline_formatting_context.inline_level_boxes@.len() + 1
                &&& f.inline_level_boxes@.drop_last()
                    == prev.ongoing_inline_formatting_context.inline_level_boxes@
                &&& is_fragmented_chain(
                    prev.ongoing_inline_boxes_stack@,
                    0,
                    f.inline_level_boxes@.last(),
                )
            })
        }
    }
}

impl BlockContainerBuilder {
    /// Handle an in-flow block-level element: split the open inline content
    /// around it and append it with deferred children.
    pub fn handle_block_level_element(
        &mut self,
        element: NodeId,
        style: Arc<ComputedValues>,
        display_inside: DisplayInside,
    )
        requires
            builder_inv(*old(self)),
        ensures
            builder_inv(*final(self)),
            spec_handled_block(*old(self), *final(self), style, element),
    {
        match display_inside {
            DisplayInside::Flow => {},
        }
        let ghost prev_stack = self.ongoing_inline_boxes_stack@;
        let ghost n = prev_stack.len() as int;
        // Fragment every open inline box around the block-level box,
        // innermost first, accumulating the fragments as a single chain.
        let mut chain: Option<InlineLevelBox> = None;
        let mut rebuilt: Vec<InlineBox> = Vec::new();
        while self.ongoing_inline_boxes_stack.len() > 0
            invariant
                builder_inv(*old(self)),
                n == prev_stack.len() as int,
                self.ongoing_inline_boxes_stack@ == prev_stack.subrange(
                    0,
                    self.ongoing_inline_boxes_stack@.len() as int,
                ),
                rebuilt@.len() == n - self.ongoing_inline_boxes_stack@.len(),
                forall|i: int|
                    0 <= i < rebuilt@.len() ==> {
                        &&& #[trigger] rebuilt@[i].style == prev_stack[n - 1 - i].style
                        &&& rebuilt@[i].last_fragment == prev_stack[n - 1 - i].last_fragment
                        &&& rebuilt@[i].first_fragment == false
                        &&& rebuilt@[i].children@.len() == 0
                    },
                if self.ongoing_inline_boxes_stack@.len() == n {
                    chain is None
                } else {
                    chain matches Some(c) && is_fragmented_chain(
                        prev_stack,
                        self.ongoing_inline_boxes_stack@.len() as int,
                        c,
                    )
                },
                self.parent_style == old(self).parent_style,
                self.block_level_boxes == old(self).block_level_boxes,
                self.ongoing_inline_formatting_context == old(
                    self,
                ).ongoing_inline_formatting_context,
                self.anonymous_style == old(self).anonymous_style,
                self.contains_floats == old(self).contains_floats,
            decreases self.ongoing_inline_boxes_stack@.len(),
        {
            let ghost k = self.ongoing_inline_boxes_stack@.len() - 1;
            let ongoing = match self.ongoing_inline_boxes_stack.pop() {
                Some(x) => x,
                None => unreached(),
            };
            proof {
                assert(ongoing == prev_stack[k as int]);
                assert(self.ongoing_inline_boxes_stack@ =~= prev_stack.subrange(0, k as int));
            }
            let InlineBox { style: bstyle, first_fragment, last_fragment, children } = ongoing;
            let mut fragmented = InlineBox {
                style: clone_style(&bstyle),
                first_fragment,
                last_fragment: false,
                children,
            };
            let new_chain = match chain {
                Some(c) => {
                    fragmented.children.push(c);
                    proof {
                        assert(fragmented.children@.drop_last() =~= prev_stack[k as int].children@);
                    }
                    InlineLevelBox::InlineBox(fragmented)
                },
                None => InlineLevelBox::InlineBox(fragmented),
            };
            chain = Some(new_chain);
            rebuilt.push(
                InlineBox {
                    style: bstyle,
                    first_fragment: false,
                    last_fragment,
                    children: Vec::new(),
                },
            );
        }
        // Restore the open inline boxes, emptied and no longer first
        // fragments: they resume after the block-level box.
        while rebuilt.len() > 0
            invariant
                n == prev_stack.len() as int,
                self.ongoing_inline_boxes_stack@.len() == n - rebuilt@.len(),
                forall|i: int|
                    0 <= i < rebuilt@.len() ==> {
                        &&& #[trigger] rebuilt@[i].style == prev_stack[n - 1 - i].style
                        &&& rebuilt@[i].last_fragment == prev_stack[n - 1 - i].last_fragment
                        &&& rebuilt@[i].first_fragment == false
                        &&& rebuilt@[i].children@.len() == 0
                    },
                forall|i: int|
                    0 <= i < self.ongoing_inline_boxes_stack@.len() ==> {
                        &&& #[trigger] self.ongoing_inline_boxes_stack@[i].style
                            == prev_stack[i].style
                        &&& self.ongoing_inline_boxes_stack@[i].last_fragment
                            == prev_stack[i].last_fragment
                        &&& self.ongoing_inline_boxes_stack@[i].first_fragment == false
                        &&& self.ongoing_inline_boxes_stack@[i].children@.len() == 0
                    },
                self.parent_style == old(self).parent_style,
                self.block_level_boxes == old(self).block_level_boxes,
                self.ongoing_inline_formatting_context == old(
                    self,
                ).ongoing_inline_formatting_context,
                self.anonymous_style == old(self).anonymous_style,
                self.contains_floats == old(self).contains_floats,
            decreases rebuilt@.len(),
        {
            match rebuilt.pop() {
                Some(e) => self.ongoing_inline_boxes_stack.push(e),
                None => {},
            }
        }
        // Push the chain of fragmented boxes, then close the ongoing inline
        // formatting context before the block-level box is appended.
        match chain {
            Some(c) => {
                proof {
                    lemma_chain_wf(
                        prev_stack,
                        0,
                        c,
                        old(self).contains_floats == ContainsFloats::No,
                    );
                }
                self.ongoing_inline_formatting_context.inline_level_boxes.push(c);
                proof {
                    let prev_ifc = old(
                        self,
                    ).ongoing_inline_formatting_context.inline_level_boxes@;
                    assert(self.ongoing_inline_formatting_context.inline_level_boxes@.drop_last()
                        =~= prev_ifc);
                    assert forall|j: int|
                        0 <= j < self.ongoing_inline_formatting_context.inline_level_boxes@.len()
                            implies inline_wf(
                        #[trigger] self.ongoing_inline_formatting_context.inline_level_boxes@[j],
                    ) by {
                        if j < prev_ifc.len() {
                            assert(self.ongoing_inline_formatting_context.inline_level_boxes@[j]
                                == prev_ifc[j]);
                            assert(inline_wf(prev_ifc[j]));
                        }
                    }
                    if self.contains_floats == ContainsFloats::No {
                        assert forall|j: int|
                            0 <= j
                                < self.ongoing_inline_formatting_context.inline_level_boxes@.len()
                                implies inline_no_floats(
                            #[trigger] self.ongoing_inline_formatting_context.inline_level_boxes@[j],
                        ) by {
                            if j < prev_ifc.len() {
                                assert(self.ongoing_inline_formatting_context.inline_level_boxes@[j]
                                    == prev_ifc[j]);
                                assert(inline_no_floats(prev_ifc[j]));
                            }
                        }
                    }
                }
            },
            None => {},
        }
        proof {
            assert forall|i: int|
                0 <= i < self.ongoing_inline_boxes_stack@.len() implies inline_box_children_wf(
                #[trigger] self.ongoing_inline_boxes_stack@[i],
            ) && inlines_no_floats(self.ongoing_inline_boxes_stack@[i].children@) by {
                assert(self.ongoing_inline_boxes_stack@[i].style == prev_stack[i].style);
                assert(self.ongoing_inline_boxes_stack@[i].children@.len() == 0);
            }
        }
        let ghost before_close = *self;
        self.end_ongoing_inline_formatting_context();
        self.block_level_boxes.push(
            IntermediateBlockLevelBox::SameFormattingContextBlock {
                style,
                contents: IntermediateBlockContainer::Deferred { from_children_of: element },
            },
        );
        proof {
            let prev_blocks = old(self).block_level_boxes@;
            if !(n == 0 && old(self).ongoing_inline_formatting_context.inline_level_boxes@.len()
                == 0) {
                assert(before_close.ongoing_inline_formatting_context.inline_level_boxes@.len()
                    > 0);
                assert(self.block_level_boxes@.subrange(0, prev_blocks.len() as int)
                    =~= prev_blocks);
                assert(self.block_level_boxes@[prev_blocks.len() as int]
                    == self.block_level_boxes@.drop_last().last());
            }
        }
    }
}

/// Closing an inline box preserves the builder's invariant: the closed copy
/// carries the children it accumulated, which are already known well formed.
proof fn lemma_ended_preserves_inv(prev: BlockContainerBuilder, next: BlockContainerBuilder)
    requires
        builder_inv(prev),
        prev.ongoing_inline_boxes_stack@.len() > 0,
        spec_ended_inline_box(prev, next),
    ensures
        builder_inv(next),
{
    let n = prev.ongoing_inline_boxes_stack@.len() as int;
    let l = prev.ongoing_inline_boxes_stack@.last();
    let closed = InlineLevelBox::InlineBox(
        InlineBox {
            style: l.style,
            first_fragment: l.first_fragment,
            last_fragment: true,
            children: l.children,
        },
    );
    assert(inline_box_children_wf(prev.ongoing_inline_boxes_stack@[n - 1]));
    assert(inline_wf(closed));
    if prev.contains_floats == ContainsFloats::No {
        assert(inlines_no_floats(prev.ongoing_inline_boxes_stack@[n - 1].children@));
        assert(inline_no_floats(closed));
    }
    if n == 1 {
        let prev_ifc = prev.ongoing_inline_formatting_context.inline_level_boxes@;
        let next_ifc = next.ongoing_inline_formatting_context.inline_level_boxes@;
        assert forall|j: int| 0 <= j < next_ifc.len() implies inline_wf(#[trigger] next_ifc[j]) && (
        next.contains_floats == ContainsFloats::No ==> inline_no_floats(next_ifc[j])) by {
            if j < prev_ifc.len() {
                assert(next_ifc[j] == prev_ifc[j]);
                assert(inline_wf(prev_ifc[j]));
                if next.contains_floats == ContainsFloats::No {
                    assert(inline_no_floats(prev_ifc[j]));
                }
            }
        }
        assert forall|i: int|
            0 <= i < next.ongoing_inline_boxes_stack@.len() implies inline_box_children_wf(
            #[trigger] next.ongoing_inline_boxes_stack@[i],
        ) && (next.contains_floats == ContainsFloats::No ==> inlines_no_floats(
            next.ongoing_inline_boxes_stack@[i].children@,
        )) by {
            assert(next.ongoing_inline_boxes_stack@[i] == prev.ongoing_inline_boxes_stack@[i]);
            assert(inline_box_children_wf(prev.ongoing_inline_boxes_stack@[i]));
            if next.contains_floats == ContainsFloats::No {
                assert(inlines_no_floats(prev.ongoing_inline_boxes_stack@[i].children@));
            }
        }
    } else {
        let prev_kids = prev.ongoing_inline_boxes_stack@[n - 2].children@;
        let next_kids = next.ongoing_inline_boxes_stack@[n - 2].children@;
        assert(inline_box_children_wf(prev.ongoing_inline_boxes_stack@[n - 2]));
        assert forall|j: int| 0 <= j < next_kids.len() implies inline_wf(
            #[trigger] next_kids[j],
        ) && (next.contains_floats == ContainsFloats::No ==> inline_no_floats(next_kids[j])) by {
            if j < prev_kids.len() {
                assert(next_kids[j] == prev_kids[j]);
                assert(inline_wf(prev_kids[j]));
                if next.contains_floats == ContainsFloats::No {
                    assert(inlines_no_floats(prev_kids));
                    assert(inline_no_floats(prev_kids[j]));
                }
            }
        }
        assert forall|i: int|
            0 <= i < next.ongoing_inline_boxes_stack@.len() implies inline_box_children_wf(
            #[trigger] next.ongoing_inline_boxes_stack@[i],
        ) && (next.contains_floats == ContainsFloats::No ==> inlines_no_floats(
            next.ongoing_inline_boxes_stack@[i].children@,
        )) by {
            if i != n - 2 {
                assert(next.ongoing_inline_boxes_stack@[i] == prev.ongoing_inline_boxes_stack@[i]);
                assert(inline_box_children_wf(prev.ongoing_inline_boxes_stack@[i]));
                if next.contains_floats == ContainsFloats::No {
                    assert(inlines_no_floats(prev.ongoing_inline_boxes_stack@[i].children@));
                }
            }
        }
    }
}

/// Pushing one well-formed inline-level box preserves the invariant.
proof fn lemma_push_inline_preserves_inv(
    prev: BlockContainerBuilder,
    next: BlockContainerBuilder,
    x: InlineLevelBox,
)
    requires
        builder_inv(prev),
        same_but_current_inlines(prev, next),
        spec_current_inlines(next) == spec_current_inlines(prev).push(x),
        inline_wf(x),
        prev.contains_floats == ContainsFloats::No ==> inline_no_floats(x),
    ensures
        builder_inv(next),
{
    let cur = spec_current_inlines(prev);
    let newcur = spec_current_inlines(next);
    let n = prev.ongoing_inline_boxes_stack@.len() as int;
    assert(forall|j: int| 0 <= j < cur.len() ==> inline_wf(#[trigger] cur[j])) by {
        if n > 0 {
            assert(inline_box_children_wf(prev.ongoing_inline_boxes_stack@[n - 1]));
        }
    }
    if prev.contains_floats == ContainsFloats::No {
        assert(inlines_no_floats(cur)) by {
            if n > 0 {
                assert(inlines_no_floats(prev.ongoing_inline_boxes_stack@[n - 1].children@));
            }
        }
    }
    assert forall|j: int| 0 <= j < newcur.len() implies inline_wf(#[trigger] newcur[j]) && (
    prev.contains_floats == ContainsFloats::No ==> inline_no_floats(newcur[j])) by {
        if j < newcur.len() - 1 {
            assert(newcur[j] == cur[j]);
            if prev.contains_floats == ContainsFloats::No {
                assert(inline_no_floats(cur[j]));
            }
        }
    }
    if n > 0 {
        assert forall|i: int|
            0 <= i < next.ongoing_inline_boxes_stack@.len() implies inline_box_children_wf(
            #[trigger] next.ongoing_inline_boxes_stack@[i],
        ) && (next.contains_floats == ContainsFloats::No ==> inlines_no_floats(
            next.ongoing_inline_boxes_stack@[i].children@,
        )) by {
            if i < n - 1 {
                assert(next.ongoing_inline_boxes_stack@[i] == prev.ongoing_inline_boxes_stack@[i]);
                assert(inline_box_children_wf(prev.ongoing_inline_boxes_stack@[i]));
                if next.contains_floats == ContainsFloats::No {
                    assert(inlines_no_floats(prev.ongoing_inline_boxes_stack@[i].children@));
                }
            } else {
                assert(next.ongoing_inline_boxes_stack@[i].children@ == newcur);
            }
        }
    }
}

/// A traversal step that changes nothing but the current inline-level list
/// satisfies the frame.
proof fn lemma_frame_of_same_but_current(
    prev: BlockContainerBuilder,
    next: BlockContainerBuilder,
    lo: int,
    hi: int,
)
    requires
        same_but_current_inlines(prev, next) || next == prev,
    ensures
        builder_frame(prev, next, lo, hi),
{
    assert(next.block_level_boxes@.subrange(0, prev.block_level_boxes@.len() as int)
        =~= prev.block_level_boxes@);
    assert(next.block_level_boxes@.skip(prev.block_level_boxes@.len() as int).len() == 0);
}

/// Two framed steps compose into one framed step.
proof fn lemma_frame_trans(
    a: BlockContainerBuilder,
    b: BlockContainerBuilder,
    c: BlockContainerBuilder,
    lo1: int,
    lo2: int,
    hi: int,
)
    requires
        builder_frame(a, b, lo1, hi),
        builder_frame(b, c, lo2, hi),
        lo1 <= lo2,
    ensures
        builder_frame(a, c, lo1, hi),
{
    let la = a.block_level_boxes@.len() as int;
    let lb = b.block_level_boxes@.len() as int;
    assert forall|i: int| 0 <= i < la implies c.block_level_boxes@[i]
        == a.block_level_boxes@[i] by {
        assert(c.block_level_boxes@.subrange(0, lb)[i] == b.block_level_boxes@[i]);
        assert(b.block_level_boxes@.subrange(0, la)[i] == a.block_level_boxes@[i]);
    }
    assert(c.block_level_boxes@.subrange(0, la) =~= a.block_level_boxes@);
    let tail = c.block_level_boxes@.skip(la);
    assert forall|i: int| 0 <= i < tail.len() implies ib_bound(#[trigger] tail[i], lo1, hi) by {
        if la + i < lb {
            assert(c.block_level_boxes@[la + i] == c.block_level_boxes@.subrange(0, lb)[la + i]);
            assert(c.block_level_boxes@[la + i] == b.block_level_boxes@[la + i]);
            assert(b.block_level_boxes@.skip(la)[i] == b.block_level_boxes@[la + i]);
            assert(ib_bound(b.block_level_boxes@.skip(la)[i], lo1, hi));
        } else {
            assert(c.block_level_boxes@.skip(lb)[la + i - lb] == c.block_level_boxes@[la + i]);
            assert(ib_bound(c.block_level_boxes@.skip(lb)[la + i - lb], lo2, hi));
        }
    }
}

impl BlockContainerBuilder {
    /// Walk the children of `node` in document order, handling each text
    /// node and element; children of `display: contents` elements are
    /// spliced in as if they were direct children.
    pub fn traverse_children(&mut self, doc: &Document, node: NodeId)
        requires
            doc.wf(),
            node < doc.nodes@.len(),
            builder_inv(*old(self)),
            spec_current_parent_style(*old(self)) is Some || no_stray_text(*doc, node),
        ensures
            builder_inv(*final(self)),
            builder_frame(*old(self), *final(self), node as int, doc.nodes@.len() as int),
            spec_current_parent_style(*final(self)) == spec_current_parent_style(*old(self)),
            spec_traversed_children(*doc, node, *old(self), *final(self)),
        decreases doc.nodes@.len() - node, 4int,
    {
        let n_children = self.children_count(doc, node);
        proof {
            lemma_frame_of_same_but_current(*old(self), *self, node as int, doc.nodes@.len() as int);
        }
        let mut j: usize = 0;
        while j < n_children
            invariant
                doc.wf(),
                node < doc.nodes@.len(),
                n_children == doc.nodes@[node as int].children@.len(),
                j <= n_children,
                builder_inv(*self),
                builder_frame(*old(self), *self, node as int, doc.nodes@.len() as int),
                spec_current_parent_style(*self) == spec_current_parent_style(*old(self)),
                spec_current_parent_style(*old(self)) is Some || no_stray_text(*doc, node),
                spec_traversed_prefix(*doc, node, j as int, *old(self), *self),
            decreases n_children - j,
        {
            let ghost mid = *self;
            let c = self.child_at(doc, node, j);
            match &doc.nodes[c].data {
                NodeData::Text { contents } => {
                    proof {
                        if spec_current_parent_style(*self) is None {
                            assert(no_stray_text(*doc, node));
                            assert(!(doc.nodes@[doc.nodes@[node as int].children@[j as int] as int].data
                                is Text));
                            assert(false);
                        }
                    }
                    self.handle_text(contents);
                    proof {
                        lemma_frame_of_same_but_current(
                            mid,
                            *self,
                            node as int,
                            doc.nodes@.len() as int,
                        );
                        lemma_frame_trans(
                            *old(self),
                            mid,
                            *self,
                            node as int,
                            node as int,
                            doc.nodes@.len() as int,
                        );
                        assert(spec_handled_node(*doc, c, mid, *self));
                        assert(spec_traversed_prefix(*doc, node, j as int, *old(self), mid));
                        assert(builder_witness(mid, *self));
                        assert(spec_traversed_prefix(*doc, node, j + 1, *old(self), *self));
                    }
                },
                NodeData::Element { .. } => {
                    self.handle_element(doc, c);
                    proof {
                        lemma_frame_trans(
                            *old(self),
                            mid,
                            *self,
                            node as int,
                            c as int - 1,
                            doc.nodes@.len() as int,
                        );
                        assert(spec_handled_node(*doc, c, mid, *self));
                        assert(spec_traversed_prefix(*doc, node, j as int, *old(self), mid));
                        assert(builder_witness(mid, *self));
                        assert(spec_traversed_prefix(*doc, node, j + 1, *old(self), *self));
                    }
                },
                _ => {
                    proof {
                        assert(spec_handled_node(*doc, c, mid, *self));
                        assert(spec_traversed_prefix(*doc, node, j as int, *old(self), mid));
                        assert(builder_witness(mid, *self));
                        assert(spec_traversed_prefix(*doc, node, j + 1, *old(self), *self));
                    }
                },
            }
            j += 1;
        }
    }

    /// Handle one element, dispatching on its computed `display`, `position`
    /// and `float` values.
    pub fn handle_element(&mut self, doc: &Document, element: NodeId)
        requires
            doc.wf(),
            element < doc.nodes@.len(),
            doc.nodes@[element as int].data is Element,
            builder_inv(*old(self)),
            spec_current_parent_style(*old(self)) is Some || (match doc.nodes@[element as int].data {
                NodeData::Element { style } => (*style).display is Contents ==> no_stray_text(
                    *doc,
                    element,
                ),
                _ => true,
            }),
        ensures
            builder_inv(*final(self)),
            builder_frame(*old(self), *final(self), element as int - 1, doc.nodes@.len() as int),
            spec_current_parent_style(*final(self)) == spec_current_parent_style(*old(self)),
            spec_handled_element(*doc, element, *old(self), *final(self)),
        decreases doc.nodes@.len() - element, 10int,
    {
        let style: Arc<ComputedValues> = match &doc.nodes[element].data {
            NodeData::Element { style } => clone_style(style),
            _ => vstd::pervasive::unreached(),
        };
        let display = (*style).display;
        match display {
            Display::NoBox => {
                proof {
                    lemma_frame_of_same_but_current(
                        *old(self),
                        *self,
                        element as int - 1,
                        doc.nodes@.len() as int,
                    );
                }
            },
            Display::Contents => {
                self.traverse_children(doc, element);
                proof {
                    lemma_weaken_frame(
                        *old(self),
                        *self,
                        element as int,
                        element as int - 1,
                        doc.nodes@.len() as int,
                    );
                }
            },
            Display::Other { outside, inside } => match outside {
                DisplayOutside::Inline => {
                    let ghost st = style;
                    self.handle_inline_level_element(doc, element, style, inside);
                    proof {
                        assert(spec_handled_inline(*doc, element, st, *old(self), *self));
                    }
                },
                DisplayOutside::Block => {
                    // Floats and absolute positioning blockify the display,
                    // so they only occur on the block-level path.
                    if (*style).position.is_absolutely_positioned() {
                        let ghost st = style;
                        self.handle_absolutely_positioned_element(doc, element, style, inside);
                        proof {
                            assert(spec_handled_out_of_flow(
                                *doc,
                                element,
                                st,
                                inside,
                                false,
                                *old(self),
                                *self,
                            ));
                        }
                    } else if (*style).float.is_floating() {
                        let ghost st = style;
                        self.handle_float_element(doc, element, style, inside);
                        proof {
                            assert(spec_handled_out_of_flow(
                                *doc,
                                element,
                                st,
                                inside,
                                true,
                                *old(self),
                                *self,
                            ));
                        }
                    } else {
                        let ghost st = style;
                        self.handle_block_level_element(element, style, inside);
                        proof {
                            lemma_handled_block_frame(
                                *old(self),
                                *self,
                                st,
                                element,
                                doc.nodes@.len() as int,
                            );
                        }
                    }
                },
            },
        }
    }

    /// Handle an inline-level element: open an inline box for it, traverse
    /// its children, then close the box again.
    pub fn handle_inline_level_element(
        &mut self,
        doc: &Document,
        element: NodeId,
        style: Arc<ComputedValues>,
        display_inside: DisplayInside,
    )
        requires
            doc.wf(),
            element < doc.nodes@.len(),
            builder_inv(*old(self)),
        ensures
            builder_inv(*final(self)),
            builder_frame(*old(self), *final(self), element as int - 1, doc.nodes@.len() as int),
            spec_current_parent_style(*final(self)) == spec_current_parent_style(*old(self)),
            spec_handled_inline(*doc, element, style, *old(self), *final(self)),
        decreases doc.nodes@.len() - element, 9int,
    {
        match display_inside {
            DisplayInside::Flow => {},
        }
        let ghost st = style;
        // Whatever happened before, we just found an inline-level element,
        // so all we need to do is to remember this ongoing inline box.
        self.ongoing_inline_boxes_stack.push(
            InlineBox { style, first_fragment: true, last_fragment: false, children: Vec::new() },
        );
        let ghost pushed = *self;
        proof {
            assert(self.ongoing_inline_boxes_stack@.drop_last()
                =~= old(self).ongoing_inline_boxes_stack@);
            assert(spec_opened_inline_box(*old(self), pushed, st));
        }
        proof {
            let n = self.ongoing_inline_boxes_stack@.len() as int;
            assert forall|i: int| 0 <= i < n implies inline_box_children_wf(
                #[trigger] self.ongoing_inline_boxes_stack@[i],
            ) && (self.contains_floats == ContainsFloats::No ==> inlines_no_floats(
                self.ongoing_inline_boxes_stack@[i].children@,
            )) by {
                if i < n - 1 {
                    assert(self.ongoing_inline_boxes_stack@[i]
                        == old(self).ongoing_inline_boxes_stack@[i]);
                    assert(inline_box_children_wf(old(self).ongoing_inline_boxes_stack@[i]));
                    if self.contains_floats == ContainsFloats::No {
                        assert(inlines_no_floats(old(self).ongoing_inline_boxes_stack@[i].children@));
                    }
                } else {
                    assert(self.ongoing_inline_boxes_stack@[i].children@.len() == 0);
                }
            }
        }
        self.traverse_children(doc, element);
        let ghost before_end = *self;
        self.end_ongoing_inline_box();
        proof {
            lemma_ended_preserves_inv(before_end, *self);
            // the stack is back at its entry depth, with its entries' styles
            // and closedness intact
            let n0 = old(self).ongoing_inline_boxes_stack@.len() as int;
            assert forall|i: int| 0 <= i < n0 implies #[trigger] self.ongoing_inline_boxes_stack@[i].style
                == old(self).ongoing_inline_boxes_stack@[i].style
                && self.ongoing_inline_boxes_stack@[i].last_fragment == old(
                self,
            ).ongoing_inline_boxes_stack@[i].last_fragment by {
                assert(before_end.ongoing_inline_boxes_stack@[i].style == pushed.ongoing_inline_boxes_stack@[i].style);
                assert(pushed.ongoing_inline_boxes_stack@[i] == old(self).ongoing_inline_boxes_stack@[i]);
            }
            assert(self.block_level_boxes@.subrange(0, old(self).block_level_boxes@.len() as int)
                =~= old(self).block_level_boxes@) by {
                assert(before_end.block_level_boxes@.subrange(
                    0,
                    old(self).block_level_boxes@.len() as int,
                ) == old(self).block_level_boxes@);
            }
            let tail = self.block_level_boxes@.skip(old(self).block_level_boxes@.len() as int);
            assert forall|i: int| 0 <= i < tail.len() implies ib_bound(
                #[trigger] tail[i],
                element as int - 1,
                doc.nodes@.len() as int,
            ) by {
                assert(before_end.block_level_boxes@.skip(
                    old(self).block_level_boxes@.len() as int,
                )[i] == tail[i]);
                assert(ib_bound(
                    before_end.block_level_boxes@.skip(old(self).block_level_boxes@.len() as int)[i],
                    element as int,
                    doc.nodes@.len() as int,
                ));
            }
            // the model: open, traverse, close
            assert(spec_traversed_children(*doc, element, pushed, before_end));
            assert(spec_ended_inline_box(before_end, *self));
            assert(builder_witness(pushed, before_end));
            assert(spec_handled_inline(*doc, element, st, *old(self), *self));
        }
    }

    /// Handle an absolutely positioned (and therefore blockified) element.
    ///
    /// With no inline content open it becomes a block-level out-of-flow box;
    /// otherwise it becomes an inline-level out-of-flow box, so that its
    /// static position can later refer to its place in the inline flow.
    pub fn handle_absolutely_positioned_element(
        &mut self,
        doc: &Document,
        element: NodeId,
        style: Arc<ComputedValues>,
        display_inside: DisplayInside,
    )
        requires
            doc.wf(),
            element < doc.nodes@.len(),
            builder_inv(*old(self)),
        ensures
            builder_inv(*final(self)),
            builder_frame(*old(self), *final(self), element as int - 1, doc.nodes@.len() as int),
            spec_current_parent_style(*final(self)) == spec_current_parent_style(*old(self)),
            spec_handled_out_of_flow(
                *doc,
                element,
                style,
                display_inside,
                false,
                *old(self),
                *final(self),
            ),
        decreases doc.nodes@.len() - element, 9int,
    {
        let ghost st = style;
        if !self.has_ongoing_inline_formatting_context() {
            let box_ = IntermediateBlockLevelBox::OutOfFlowAbsolutelyPositionedBox {
                style,
                element,
                display_inside,
            };
            self.block_level_boxes.push(box_);
            proof {
                assert(self.block_level_boxes@.subrange(
                    0,
                    old(self).block_level_boxes@.len() as int,
                ) =~= old(self).block_level_boxes@);
                assert(spec_handled_out_of_flow(
                    *doc,
                    element,
                    st,
                    display_inside,
                    false,
                    *old(self),
                    *self,
                ));
            }
        } else {
            let contents = IndependentFormattingContext::build(doc, element, &style, display_inside);
            let ghost gcontents = contents;
            let ghost gstyle = style;
            let arc = Arc::new(AbsolutelyPositionedBox { contents, style });
            proof {
                assert(*arc == AbsolutelyPositionedBox { contents: gcontents, style: gstyle });
                assert(abs_box_wf(*arc));
            }
            let box_ = InlineLevelBox::OutOfFlowAbsolutelyPositionedBox(arc);
            let ghost mid = *self;
            let ghost x = box_;
            self.push_inline_level_box(box_);
            proof {
                lemma_push_inline_preserves_inv(mid, *self, x);
                lemma_frame_of_same_but_current(
                    mid,
                    *self,
                    element as int - 1,
                    doc.nodes@.len() as int,
                );
                assert(spec_current_inlines(*self).drop_last()
                    =~= spec_current_inlines(*old(self)));
                assert(spec_built_independent(*doc, element, st, gcontents));
                assert(spec_handled_out_of_flow(
                    *doc,
                    element,
                    st,
                    display_inside,
                    false,
                    *old(self),
                    *self,
                ));
            }
        }
    }

    /// Handle a floating (and therefore blockified) element: symmetric to
    /// the absolutely positioned case, and in addition the whole container
    /// is marked as containing floats, which is what later forces the
    /// float-aware sequential layout path.
    pub fn handle_float_element(
        &mut self,
        doc: &Document,
        element: NodeId,
        style: Arc<ComputedValues>,
        display_inside: DisplayInside,
    )
        requires
            doc.wf(),
            element < doc.nodes@.len(),
            builder_inv(*old(self)),
        ensures
            builder_inv(*final(self)),
            builder_frame(*old(self), *final(self), element as int - 1, doc.nodes@.len() as int),
            spec_current_parent_style(*final(self)) == spec_current_parent_style(*old(self)),
            final(self).contains_floats == ContainsFloats::Yes,
            spec_handled_out_of_flow(
                *doc,
                element,
                style,
                display_inside,
                true,
                *old(self),
                *final(self),
            ),
        decreases doc.nodes@.len() - element, 9int,
    {
        let ghost st = style;
        self.contains_floats = ContainsFloats::Yes;
        let ghost flagged = *self;
        proof {
            assert(flagged == BlockContainerBuilder {
                contains_floats: ContainsFloats::Yes,
                ..*old(self)
            });
        }
        if !self.has_ongoing_inline_formatting_context() {
            let box_ = IntermediateBlockLevelBox::OutOfFlowFloatBox { style, element, display_inside };
            self.block_level_boxes.push(box_);
            proof {
                assert(self.block_level_boxes@.subrange(
                    0,
                    old(self).block_level_boxes@.len() as int,
                ) =~= old(self).block_level_boxes@);
                assert(spec_handled_out_of_flow(
                    *doc,
                    element,
                    st,
                    display_inside,
                    true,
                    *old(self),
                    *self,
                ));
            }
        } else {
            let contents = IndependentFormattingContext::build(doc, element, &style, display_inside);
            let ghost gcontents = contents;
            let box_ = InlineLevelBox::OutOfFlowFloatBox(FloatBox { contents, style });
            proof {
                assert(independent_wf(gcontents));
            }
            let ghost mid = *self;
            let ghost x = box_;
            self.push_inline_level_box(box_);
            proof {
                lemma_push_inline_preserves_inv(mid, *self, x);
                lemma_frame_of_same_but_current(
                    mid,
                    *self,
                    element as int - 1,
                    doc.nodes@.len() as int,
                );
                assert(spec_current_inlines(*self).drop_last() =~= spec_current_inlines(flagged));
                assert(spec_built_independent(*doc, element, st, gcontents));
                assert(spec_handled_out_of_flow(
                    *doc,
                    element,
                    st,
                    display_inside,
                    true,
                    *old(self),
                    *self,
                ));
            }
        }
    }

    fn children_count(&self, doc: &Document, node: NodeId) -> (r: usize)
        requires
            node < doc.nodes@.len(),
        ensures
            r == doc.nodes@[node as int].children@.len(),
    {
        doc.nodes[node].children.len()
    }

    fn child_at(&self, doc: &Document, node: NodeId, j: usize) -> (r: NodeId)
        requires
            doc.wf(),
            node < doc.nodes@.len(),
            j < doc.nodes@[node as int].children@.len(),
        ensures
            r == doc.nodes@[node as int].children@[j as int],
            node < r < doc.nodes@.len(),
    {
        doc.nodes[node].children[j]
    }
}

// --- The relational model of box construction ---
//
// What `BlockContainerBuilder::build` returns is pinned by
// `spec_built_container`: a fold of the exact per-step relations
// (`spec_handled_text`, `spec_handled_block`, `spec_closed_ifc`, ...) over
// the children of the node, with the intermediate builder states as
// existential witnesses. Every entry point of construction ensures its part
// of this model.

/// A trigger marker for the intermediate builder states that witness the
/// traversal model. It carries no fact: it only steers quantifier
/// instantiation towards the intended witnesses, which a recursive
/// function's own applications cannot do.
pub open spec fn builder_witness(a: BlockContainerBuilder, b: BlockContainerBuilder) -> bool {
    true
}

/// A trigger marker for the float-flag witnesses of the finishing fold.
pub open spec fn flags_witness(a: ContainsFloats, b: ContainsFloats) -> bool {
    true
}

/// A fresh builder for a container with the given parent style.
pub open spec fn is_initial_builder(
    b: BlockContainerBuilder,
    parent_style: Option<Arc<ComputedValues>>,
) -> bool {
    &&& b.parent_style == parent_style
    &&& b.block_level_boxes@.len() == 0
    &&& b.ongoing_inline_formatting_context.inline_level_boxes@.len() == 0
    &&& b.ongoing_inline_boxes_stack@.len() == 0
    &&& b.anonymous_style is None
    &&& b.contains_floats == ContainsFloats::No
}

/// `next` is `prev` with a fresh open inline box of the given style pushed
/// onto the stack of open inline boxes: the start of the element's first
/// fragment, with no children yet.
pub open spec fn spec_opened_inline_box(
    prev: BlockContainerBuilder,
    next: BlockContainerBuilder,
    style: Arc<ComputedValues>,
) -> bool {
    &&& next.parent_style == prev.parent_style
    &&& next.block_level_boxes == prev.block_level_boxes
    &&& next.ongoing_inline_formatting_context == prev.ongoing_inline_formatting_context
    &&& next.anonymous_style == prev.anonymous_style
    &&& next.contains_floats == prev.contains_floats
    &&& next.ongoing_inline_boxes_stack@.len() == prev.ongoing_inline_boxes_stack@.len() + 1
    &&& next.ongoing_inline_boxes_stack@.drop_last() == prev.ongoing_inline_boxes_stack@
    &&& next.ongoing_inline_boxes_stack@.last().style == style
    &&& next.ongoing_inline_boxes_stack@.last().first_fragment == true
    &&& next.ongoing_inline_boxes_stack@.last().last_fragment == false
    &&& next.ongoing_inline_boxes_stack@.last().children@.len() == 0
}

/// What handling one document node does to the builder: text is collapsed
/// and attached, an element is dispatched on its display, and everything
/// else (comments, doctypes, processing instructions) changes nothing.
pub open spec fn spec_handled_node(
    doc: Document,
    c: NodeId,
    prev: BlockContainerBuilder,
    next: BlockContainerBuilder,
) -> bool
    decreases doc.nodes@.len() - c, 12int, 0int,
    when doc.wf() && (c as int) < doc.nodes@.len()
{
    match doc.nodes@[c as int].data {
        NodeData::Text { contents } => spec_handled_text(prev, next, contents@),
        NodeData::Element { .. } => spec_handled_element(doc, c, prev, next),
        _ => next == prev,
    }
}

/// What handling one element does: `display: none` produces nothing and
/// visits no children; `display: contents` splices the children in as if
/// they were siblings; inline-outside elements become inline boxes;
/// block-outside elements split the open inline content, with absolute
/// positioning and floats taking their out-of-flow forms.
pub open spec fn spec_handled_element(
    doc: Document,
    e: NodeId,
    prev: BlockContainerBuilder,
    next: BlockContainerBuilder,
) -> bool
    decreases doc.nodes@.len() - e, 11int, 0int,
    when doc.wf() && (e as int) < doc.nodes@.len()
{
    match doc.nodes@[e as int].data {
        NodeData::Element { style } => match (*style).display {
            Display::NoBox => next == prev,
            Display::Contents => spec_traversed_children(doc, e, prev, next),
            Display::Other { outside, inside } => match outside {
                DisplayOutside::Inline => spec_handled_inline(doc, e, style, prev, next),
                DisplayOutside::Block => if (*style).position.spec_is_absolutely_positioned() {
                    spec_handled_out_of_flow(doc, e, style, inside, false, prev, next)
                } else if (*style).float.spec_is_floating() {
                    spec_handled_out_of_flow(doc, e, style, inside, true, prev, next)
                } else {
                    spec_handled_block(prev, next, style, e)
                },
            },
        },
        _ => true,
    }
}

/// What handling an inline-level element does: open an inline box for it,
/// traverse its children into that box, then close it as the last fragment
/// of its element and append it to the enclosing inline-level list.
pub open spec fn spec_handled_inline(
    doc: Document,
    e: NodeId,
    style: Arc<ComputedValues>,
    prev: BlockContainerBuilder,
    next: BlockContainerBuilder,
) -> bool
    decreases doc.nodes@.len() - e, 10int, 0int,
    when doc.wf() && (e as int) < doc.nodes@.len()
{
    exists|opened: BlockContainerBuilder, traversed: BlockContainerBuilder|
        #![trigger builder_witness(opened, traversed)]
        {
            &&& builder_witness(opened, traversed)
            &&& spec_opened_inline_box(prev, opened, style)
            &&& spec_traversed_children(doc, e, opened, traversed)
            &&& spec_ended_inline_box(traversed, next)
        }
}

/// What handling an absolutely positioned (`float == false`) or floating
/// (`float == true`) element does. A float first marks the whole container
/// as containing floats. Then, with no inline content open, a block-level
/// out-of-flow box with deferred children is appended to the block-level
/// list; otherwise an inline-level out-of-flow box with eagerly built
/// contents is appended to the current inline-level list.
pub open spec fn spec_handled_out_of_flow(
    doc: Document,
    e: NodeId,
    style: Arc<ComputedValues>,
    display_inside: DisplayInside,
    float: bool,
    prev: BlockContainerBuilder,
    next: BlockContainerBuilder,
) -> bool
    decreases doc.nodes@.len() - e, 10int, 0int,
    when doc.wf() && (e as int) < doc.nodes@.len()
{
    let base = if float {
        BlockContainerBuilder { contains_floats: ContainsFloats::Yes, ..prev }
    } else {
        prev
    };
    if prev.ongoing_inline_formatting_context.inline_level_boxes@.len() == 0
        && prev.ongoing_inline_boxes_stack@.len() == 0 {
        let box_ = if float {
            IntermediateBlockLevelBox::OutOfFlowFloatBox { style, element: e, display_inside }
        } else {
            IntermediateBlockLevelBox::OutOfFlowAbsolutelyPositionedBox {
                style,
                element: e,
                display_inside,
            }
        };
        &&& next.parent_style == base.parent_style
        &&& next.ongoing_inline_formatting_context == base.ongoing_inline_formatting_context
        &&& next.ongoing_inline_boxes_stack == base.ongoing_inline_boxes_stack
        &&& next.anonymous_style == base.anonymous_style
        &&& next.contains_floats == base.contains_floats
        &&& next.block_level_boxes@ == base.block_level_boxes@.push(box_)
    } else {
        &&& same_but_current_inlines(base, next)
        &&& spec_current_inlines(next).len() == spec_current_inlines(base).len() + 1
        &&& spec_current_inlines(next).drop_last() == spec_current_inlines(base)
        &&& if float {
            spec_current_inlines(next).last() matches InlineLevelBox::OutOfFlowFloatBox(fb)
                && fb.style == style && spec_built_independent(doc, e, style, fb.contents)
        } else {
            spec_current_inlines(next).last()
                matches InlineLevelBox::OutOfFlowAbsolutelyPositionedBox(ab) && (*ab).style == style
                && spec_built_independent(doc, e, style, (*ab).contents)
        }
    }
}

/// The builder state after all children of `node` are handled in document
/// order (children of `display: contents` elements spliced in).
pub open spec fn spec_traversed_children(
    doc: Document,
    node: NodeId,
    prev: BlockContainerBuilder,
    next: BlockContainerBuilder,
) -> bool
    decreases doc.nodes@.len() - node, 2int, 0int,
    when doc.wf() && (node as int) < doc.nodes@.len()
{
    spec_traversed_prefix(
        doc,
        node,
        doc.nodes@[node as int].children@.len() as int,
        prev,
        next,
    )
}

/// The builder state after the first `j` children of `node` are handled.
pub open spec fn spec_traversed_prefix(
    doc: Document,
    node: NodeId,
    j: int,
    prev: BlockContainerBuilder,
    next: BlockContainerBuilder,
) -> bool
    decreases doc.nodes@.len() - node, 1int, j,
    when doc.wf() && (node as int) < doc.nodes@.len() && j <= doc.nodes@[node as int].children@.len()
{
    if j <= 0 {
        next == prev
    } else {
        let c = doc.nodes@[node as int].children@[j - 1];
        exists|mid: BlockContainerBuilder|
            #![trigger builder_witness(mid, next)]
            {
                &&& builder_witness(mid, next)
                &&& spec_traversed_prefix(doc, node, j - 1, prev, mid)
                &&& spec_handled_node(doc, c, mid, next)
            }
    }
}

/// What building the independent formatting context of an out-of-flow
/// element yields: a block formatting context built from its children.
pub open spec fn spec_built_independent(
    doc: Document,
    e: NodeId,
    style: Arc<ComputedValues>,
    r: IndependentFormattingContext,
) -> bool
    decreases doc.nodes@.len() - e, 9int, 0int,
    when doc.wf() && (e as int) < doc.nodes@.len()
{
    match r {
        IndependentFormattingContext::Flow(bfc) => spec_built_bfc(doc, e, Some(style), bfc),
    }
}

/// What building a block formatting context yields: the built container,
/// with the float flag set exactly when construction found a float.
pub open spec fn spec_built_bfc(
    doc: Document,
    node: NodeId,
    parent_style: Option<Arc<ComputedValues>>,
    b: BlockFormattingContext,
) -> bool
    decreases doc.nodes@.len() - node, 8int, 0int,
    when doc.wf() && (node as int) < doc.nodes@.len()
{
    exists|cf: ContainsFloats|
        #![trigger flags_witness(cf, cf)]
        {
            &&& flags_witness(cf, cf)
            &&& spec_built_container(doc, node, parent_style, b.contents, cf)
            &&& b.contains_floats == (cf == ContainsFloats::Yes)
        }
}

/// The model of `BlockContainerBuilder::build`: start from a fresh builder,
/// handle every child of `node` in document order, then finish. In
/// particular, a node with no box-producing content yields exactly the
/// empty list of block-level boxes and a clear float flag, and inline-only
/// content yields exactly that inline formatting context, unwrapped.
pub open spec fn spec_built_container(
    doc: Document,
    node: NodeId,
    parent_style: Option<Arc<ComputedValues>>,
    r: BlockContainer,
    cf: ContainsFloats,
) -> bool
    decreases doc.nodes@.len() - node, 7int, 0int,
    when doc.wf() && (node as int) < doc.nodes@.len()
{
    exists|start: BlockContainerBuilder, traversed: BlockContainerBuilder|
        #![trigger builder_witness(start, traversed)]
        {
            &&& builder_witness(start, traversed)
            &&& is_initial_builder(start, parent_style)
            &&& spec_traversed_children(doc, node, start, traversed)
            &&& spec_built_endgame(doc, node as int, traversed, r, cf)
        }
}

/// The end of construction: inline-only content *is* the inline formatting
/// context (no anonymous wrapper); otherwise any trailing inline content is
/// closed into an anonymous block, and every collected intermediate box is
/// finished in order, the float flags accumulated with boolean OR.
pub open spec fn spec_built_endgame(
    doc: Document,
    lo: int,
    s: BlockContainerBuilder,
    r: BlockContainer,
    cf: ContainsFloats,
) -> bool
    decreases doc.nodes@.len() - lo, 6int, 0int,
    when doc.wf() && 0 <= lo < doc.nodes@.len()
{
    if s.ongoing_inline_formatting_context.inline_level_boxes@.len() > 0
        && s.block_level_boxes@.len() == 0 {
        &&& r == BlockContainer::InlineFormattingContext(s.ongoing_inline_formatting_context)
        &&& cf == s.contains_floats
    } else {
        exists|closed: BlockContainerBuilder|
            #![trigger builder_witness(s, closed)]
            {
                &&& builder_witness(s, closed)
                &&& spec_closed_ifc(s, closed)
                &&& ibs_bound(closed.block_level_boxes@, lo, doc.nodes@.len() as int)
                &&& r matches BlockContainer::BlockLevelBoxes(v) && spec_finished_all(
                    doc,
                    lo,
                    closed.block_level_boxes@,
                    v@,
                    closed.contains_floats,
                    cf,
                )
            }
    }
}

/// How the float flags accumulate: once `Yes`, always `Yes`.
pub open spec fn spec_or_flags(a: ContainsFloats, b: ContainsFloats) -> ContainsFloats {
    if b == ContainsFloats::Yes {
        ContainsFloats::Yes
    } else {
        a
    }
}

/// Every intermediate box finished in order: each output box has the shape
/// `finish_shape` gives it, a deferred block's contents are the built
/// container of its element's children, and the resulting float flag is the
/// OR of `acc` with every box's own flag.
pub open spec fn spec_finished_all(
    doc: Document,
    lo: int,
    ibs: Seq<IntermediateBlockLevelBox>,
    outs: Seq<BlockLevelBox>,
    acc: ContainsFloats,
    result: ContainsFloats,
) -> bool
    decreases doc.nodes@.len() - lo, 5int, ibs.len(),
    when doc.wf() && 0 <= lo < doc.nodes@.len() && ibs_bound(ibs, lo, doc.nodes@.len() as int)
{
    if ibs.len() == 0 {
        outs.len() == 0 && result == acc
    } else {
        proof {
            assert(ib_bound(ibs[ibs.len() - 1], lo, doc.nodes@.len() as int));
        }
        &&& outs.len() == ibs.len()
        &&& exists|cf_last: ContainsFloats, acc_mid: ContainsFloats|
            #![trigger flags_witness(acc_mid, cf_last)]
            {
                &&& flags_witness(acc_mid, cf_last)
                &&& spec_finished_all(doc, lo, ibs.drop_last(), outs.drop_last(), acc, acc_mid)
                &&& finish_shape(ibs.last(), outs.last(), cf_last)
                &&& match ibs.last() {
                    IntermediateBlockLevelBox::SameFormattingContextBlock {
                        style,
                        contents: IntermediateBlockContainer::Deferred { from_children_of },
                    } => outs.last() matches BlockLevelBox::SameFormattingContextBlock {
                        contents: built,
                        ..
                    } && spec_built_container(doc, from_children_of, Some(style), built, cf_last),
                    _ => true,
                }
                &&& result == spec_or_flags(acc_mid, cf_last)
            }
    }
}

/// A node with no children at all builds to exactly the empty list of
/// block-level boxes with a clear float flag: the model leaves a container
/// with no content no room for anything else.
pub proof fn lemma_built_empty(
    doc: Document,
    node: NodeId,
    parent_style: Option<Arc<ComputedValues>>,
    r: BlockContainer,
    cf: ContainsFloats,
)
    requires
        doc.wf(),
        node < doc.nodes@.len(),
        doc.nodes@[node as int].children@.len() == 0,
        spec_built_container(doc, node, parent_style, r, cf),
    ensures
        r matches BlockContainer::BlockLevelBoxes(v) && v@.len() == 0,
        cf == ContainsFloats::No,
{
    let (start, traversed) = choose|start: BlockContainerBuilder, traversed: BlockContainerBuilder|
        #![trigger builder_witness(start, traversed)]
        {
            &&& builder_witness(start, traversed)
            &&& is_initial_builder(start, parent_style)
            &&& spec_traversed_children(doc, node, start, traversed)
            &&& spec_built_endgame(doc, node as int, traversed, r, cf)
        };
    assert(traversed == start);
    let closed = choose|closed: BlockContainerBuilder|
        #![trigger builder_witness(traversed, closed)]
        {
            &&& builder_witness(traversed, closed)
            &&& spec_closed_ifc(traversed, closed)
            &&& ibs_bound(closed.block_level_boxes@, node as int, doc.nodes@.len() as int)
            &&& r matches BlockContainer::BlockLevelBoxes(v) && spec_finished_all(
                doc,
                node as int,
                closed.block_level_boxes@,
                v@,
                closed.contains_floats,
                cf,
            )
        };
    assert(closed == traversed);
    assert(closed.block_level_boxes@.len() == 0);
}

// --- Finishing: building the deferred children, possibly in parallel ---

/// The node a finished intermediate recurses into, used as its recursion
/// measure; an already-built inline formatting context recurses nowhere.
pub open spec fn ib_node(ib: IntermediateBlockLevelBox) -> int {
    match ib {
        IntermediateBlockLevelBox::SameFormattingContextBlock { contents, .. } => match contents {
            IntermediateBlockContainer::InlineFormattingContext(_) => 0,
            IntermediateBlockContainer::Deferred { from_children_of } => from_children_of as int,
        },
        IntermediateBlockLevelBox::OutOfFlowAbsolutelyPositionedBox { element, .. } => element as int,
        IntermediateBlockLevelBox::OutOfFlowFloatBox { element, .. } => element as int,
    }
}

/// The shape a finished block-level box shares with the intermediate it
/// came from: same variant, same style; an already-built inline formatting
/// context is kept as it is; built contents are well formed; the float flag
/// is `Yes` exactly for float boxes and containers that turn out to hold
/// floats.
pub open spec fn finish_shape(
    ib: IntermediateBlockLevelBox,
    blb: BlockLevelBox,
    cf: ContainsFloats,
) -> bool {
    match ib {
        IntermediateBlockLevelBox::SameFormattingContextBlock { style, contents } => match contents {
            IntermediateBlockContainer::InlineFormattingContext(ifc) => {
                &&& blb == BlockLevelBox::SameFormattingContextBlock {
                    style,
                    contents: BlockContainer::InlineFormattingContext(ifc),
                }
                &&& cf == ContainsFloats::No
            },
            IntermediateBlockContainer::Deferred { .. } => {
                blb matches BlockLevelBox::SameFormattingContextBlock {
                    style: s2,
                    contents: built,
                } && s2 == style && container_wf(built) && (cf == ContainsFloats::No
                    ==> container_no_floats(built))
            },
        },
        IntermediateBlockLevelBox::OutOfFlowAbsolutelyPositionedBox { style, .. } => {
            blb matches BlockLevelBox::OutOfFlowAbsolutelyPositionedBox(ab) && (*ab).style == style
                && abs_box_wf(*ab) && cf == ContainsFloats::No
        },
        IntermediateBlockLevelBox::OutOfFlowFloatBox { style, .. } => {
            blb matches BlockLevelBox::OutOfFlowFloatBox(fb) && fb.style == style
                && independent_wf(fb.contents) && cf == ContainsFloats::Yes
        },
    }
}

/// Everything finishing one intermediate box guarantees: its shape, and for
/// a block with deferred children, that the built contents are exactly the
/// built container of the element's children, with the matching float flag.
pub open spec fn finish_rel(
    doc: Document,
    ib: IntermediateBlockLevelBox,
    blb: BlockLevelBox,
    cf: ContainsFloats,
) -> bool {
    &&& finish_shape(ib, blb, cf)
    &&& match ib {
        IntermediateBlockLevelBox::SameFormattingContextBlock {
            style,
            contents: IntermediateBlockContainer::Deferred { from_children_of },
        } => blb matches BlockLevelBox::SameFormattingContextBlock { contents: built, .. }
            && spec_built_container(doc, from_children_of, Some(style), built, cf),
        _ => true,
    }
}

impl IntermediateBlockContainer {
    /// Build the block container this intermediate stands for.
    fn finish(self, doc: &Document, style: &Arc<ComputedValues>) -> (r: (
        BlockContainer,
        ContainsFloats,
    ))
        requires
            doc.wf(),
            self matches IntermediateBlockContainer::Deferred { from_children_of }
                ==> from_children_of < doc.nodes@.len(),
        ensures
            match self {
                IntermediateBlockContainer::InlineFormattingContext(ifc) => r == (
                    BlockContainer::InlineFormattingContext(ifc),
                    ContainsFloats::No,
                ),
                IntermediateBlockContainer::Deferred { from_children_of } => {
                    &&& container_wf(r.0)
                    &&& r.1 == ContainsFloats::No ==> container_no_floats(r.0)
                    &&& spec_built_container(*doc, from_children_of, Some(*style), r.0, r.1)
                },
            },
        decreases (match self {
            IntermediateBlockContainer::Deferred { from_children_of } => doc.nodes@.len()
                - from_children_of,
            _ => 0,
        }), 9int,
    {
        match self {
            IntermediateBlockContainer::Deferred { from_children_of } => {
                BlockContainerBuilder::build(doc, from_children_of, Some(clone_style(style)))
            },
            IntermediateBlockContainer::InlineFormattingContext(ifc) => {
                // If that inline formatting context contained any float,
                // the builder already accounted for it when it was filled.
                (BlockContainer::InlineFormattingContext(ifc), ContainsFloats::No)
            },
        }
    }
}

impl IntermediateBlockLevelBox {
    /// Build this deferred block-level box.
    fn finish(self, doc: &Document) -> (r: (BlockLevelBox, ContainsFloats))
        requires
            doc.wf(),
            ib_wf(self),
            ib_bound(self, -1, doc.nodes@.len() as int),
        ensures
            finish_rel(*doc, self, r.0, r.1),
        decreases doc.nodes@.len() - ib_node(self), 10int,
    {
        match self {
            IntermediateBlockLevelBox::SameFormattingContextBlock { style, contents } => {
                let (contents, contains_floats) = contents.finish(doc, &style);
                let block_level_box = BlockLevelBox::SameFormattingContextBlock { contents, style };
                (block_level_box, contains_floats)
            },
            IntermediateBlockLevelBox::OutOfFlowAbsolutelyPositionedBox {
                style,
                element,
                display_inside,
            } => {
                let contents = IndependentFormattingContext::build(
                    doc,
                    element,
                    &style,
                    display_inside,
                );
                let block_level_box = BlockLevelBox::OutOfFlowAbsolutelyPositionedBox(
                    Arc::new(AbsolutelyPositionedBox { contents, style }),
                );
                (block_level_box, ContainsFloats::No)
            },
            IntermediateBlockLevelBox::OutOfFlowFloatBox { style, element, display_inside } => {
                let contents = IndependentFormattingContext::build(
                    doc,
                    element,
                    &style,
                    display_inside,
                );
                let block_level_box = BlockLevelBox::OutOfFlowFloatBox(FloatBox { contents, style });
                (block_level_box, ContainsFloats::Yes)
            },
        }
    }
}

/// Relies on rayon's parallel iterator over a vector (`into_par_iter`,
/// `map`, `collect`): the closure is applied to every element, and the
/// collected results keep the input's order. The closure only calls the
/// verified `IntermediateBlockLevelBox::finish`, whose preconditions this
/// function requires for every element.
#[verifier::external_body]
fn par_finish_all(doc: &Document, boxes: Vec<IntermediateBlockLevelBox>) -> (r: Vec<
    (BlockLevelBox, ContainsFloats),
>)
    requires
        doc.wf(),
        ibs_wf(boxes@),
        ibs_bound(boxes@, -1, doc.nodes@.len() as int),
    ensures
        r@.len() == boxes@.len(),
        forall|i: int| 0 <= i < r@.len() ==> finish_rel(*doc, boxes@[i], r@[i].0, r@[i].1),
{
    boxes.into_par_iter().map(|ib| ib.finish(doc)).collect()
}

impl IndependentFormattingContext {
    /// Build the independent formatting context an out-of-flow element
    /// establishes.
    pub fn build(
        doc: &Document,
        element: NodeId,
        style: &Arc<ComputedValues>,
        display_inside: DisplayInside,
    ) -> (r: IndependentFormattingContext)
        requires
            doc.wf(),
            element < doc.nodes@.len(),
        ensures
            independent_wf(r),
            spec_built_independent(*doc, element, *style, r),
        decreases doc.nodes@.len() - element, 8int,
    {
        match display_inside {
            DisplayInside::Flow => IndependentFormattingContext::Flow(
                BlockFormattingContext::build(doc, element, Some(clone_style(style))),
            ),
        }
    }
}

impl BlockFormattingContext {
    /// Build the block formatting context rooted at `node`'s children.
    pub fn build(doc: &Document, node: NodeId, parent_style: Option<Arc<ComputedValues>>) -> (r:
        BlockFormattingContext)
        requires
            doc.wf(),
            node < doc.nodes@.len(),
            parent_style is Some || no_stray_text(*doc, node),
        ensures
            bfc_wf(r),
            spec_built_bfc(*doc, node, parent_style, r),
        decreases doc.nodes@.len() - node, 7int,
    {
        let ghost ps = parent_style;
        let (contents, contains_floats) = BlockContainerBuilder::build(doc, node, parent_style);
        let r = BlockFormattingContext {
            contents,
            contains_floats: matches!(contains_floats, ContainsFloats::Yes),
        };
        proof {
            assert(spec_built_container(*doc, node, ps, r.contents, contains_floats));
            assert(flags_witness(contains_floats, contains_floats));
        }
        r
    }
}

impl Document {
    /// Build the box tree of a whole document.
    pub fn box_tree(&self) -> (r: BlockFormattingContext)
        requires
            self.wf(),
            no_stray_text(*self, 0),
        ensures
            bfc_wf(r),
            spec_built_bfc(*self, 0, None::<Arc<ComputedValues>>, r),
    {
        BlockFormattingContext::build(self, Document::document_node_id(), None)
    }
}

impl BlockContainerBuilder {
    /// Build the block container of the children of `parent_node`: traverse
    /// them, wrap trailing inline content, and finish every deferred box
    /// through an order-preserving parallel map. A container whose only
    /// content is inline *is* that inline formatting context; a container
    /// with no content at all is an empty list of block-level boxes.
    pub fn build(
        doc: &Document,
        parent_node: NodeId,
        parent_style: Option<Arc<ComputedValues>>,
    ) -> (r: (BlockContainer, ContainsFloats))
        requires
            doc.wf(),
            parent_node < doc.nodes@.len(),
            parent_style is Some || no_stray_text(*doc, parent_node),
        ensures
            container_wf(r.0),
            r.1 == ContainsFloats::No ==> container_no_floats(r.0),
            spec_built_container(*doc, parent_node, parent_style, r.0, r.1),
        decreases doc.nodes@.len() - parent_node, 6int,
    {
        let ghost ps = parent_style;
        let mut builder = BlockContainerBuilder::new(parent_style);
        let ghost start = builder;
        builder.traverse_children(doc, parent_node);
        let ghost after_traverse = builder;
        proof {
            assert(is_initial_builder(start, ps));
            assert(spec_traversed_children(*doc, parent_node, start, after_traverse));
        }
        if builder.ongoing_inline_formatting_context.inline_level_boxes.len() > 0 {
            if builder.block_level_boxes.len() == 0 {
                let container = BlockContainer::InlineFormattingContext(
                    builder.ongoing_inline_formatting_context,
                );
                proof {
                    assert(spec_built_endgame(
                        *doc,
                        parent_node as int,
                        after_traverse,
                        container,
                        after_traverse.contains_floats,
                    ));
                    assert(builder_witness(start, after_traverse));
                    assert(spec_built_container(
                        *doc,
                        parent_node,
                        ps,
                        container,
                        after_traverse.contains_floats,
                    ));
                }
                return (container, builder.contains_floats);
            }
            builder.end_ongoing_inline_formatting_context();
        }
        let ghost closed = builder;
        let mut contains_floats = builder.contains_floats;
        let ghost intermediates = builder.block_level_boxes@;
        proof {
            assert(spec_closed_ifc(after_traverse, closed));
            assert forall|i: int| 0 <= i < intermediates.len() implies ib_bound(
                #[trigger] intermediates[i],
                parent_node as int,
                doc.nodes@.len() as int,
            ) && ib_bound(intermediates[i], -1, doc.nodes@.len() as int) by {
                if i < after_traverse.block_level_boxes@.len() {
                    assert(intermediates[i] == after_traverse.block_level_boxes@[i]);
                    assert(after_traverse.block_level_boxes@.skip(0)[i]
                        == after_traverse.block_level_boxes@[i]);
                    assert(ib_bound(
                        after_traverse.block_level_boxes@.skip(0)[i],
                        parent_node as int,
                        doc.nodes@.len() as int,
                    ));
                }
            }
            assert(intermediates.take(0) =~= Seq::<IntermediateBlockLevelBox>::empty());
        }
        let mut finished = par_finish_all(doc, builder.block_level_boxes);
        let mut out: Vec<BlockLevelBox> = Vec::new();
        while finished.len() > 0
            invariant
                doc.wf(),
                0 <= parent_node < doc.nodes@.len(),
                out@.len() + finished@.len() == intermediates.len(),
                forall|i: int|
                    0 <= i < finished@.len() ==> finish_rel(
                        *doc,
                        intermediates[out@.len() + i],
                        (#[trigger] finished@[i]).0,
                        finished@[i].1,
                    ),
                forall|i: int| 0 <= i < out@.len() ==> block_wf(#[trigger] out@[i]),
                contains_floats == ContainsFloats::No ==> closed.contains_floats
                    == ContainsFloats::No && ibs_no_floats(intermediates) && forall|i: int|
                    0 <= i < out@.len() ==> block_no_floats(#[trigger] out@[i]),
                ibs_wf(intermediates),
                ibs_bound(intermediates, parent_node as int, doc.nodes@.len() as int),
                spec_finished_all(
                    *doc,
                    parent_node as int,
                    intermediates.take(out@.len() as int),
                    out@,
                    closed.contains_floats,
                    contains_floats,
                ),
            decreases finished@.len(),
        {
            let ghost k = out@.len() as int;
            let ghost prev_flag = contains_floats;
            let ghost prev_out = out@;
            let (block_level_box, box_contains_floats) = finished.remove(0);
            proof {
                assert(finish_rel(*doc, intermediates[k], block_level_box, box_contains_floats));
                assert(ib_wf(intermediates[k]));
                if contains_floats == ContainsFloats::No {
                    assert(ib_no_floats(intermediates[k]));
                }
            }
            contains_floats.bitor_assign(box_contains_floats);
            out.push(block_level_box);
            proof {
                assert forall|i: int| 0 <= i < finished@.len() implies finish_rel(
                    *doc,
                    intermediates[out@.len() + i],
                    (#[trigger] finished@[i]).0,
                    finished@[i].1,
                ) by {
                    assert(finished@[i] == seq_at(finished@, i));
                }
                // extend the fold by one finished box
                let taken = intermediates.take(k + 1);
                assert(taken.drop_last() =~= intermediates.take(k));
                assert(taken.last() == intermediates[k]);
                assert(out@.drop_last() =~= prev_out);
                assert(out@.last() == block_level_box);
                assert(contains_floats == spec_or_flags(prev_flag, box_contains_floats));
                assert(spec_finished_all(
                    *doc,
                    parent_node as int,
                    intermediates.take(k),
                    prev_out,
                    closed.contains_floats,
                    prev_flag,
                ));
                assert(finish_shape(taken.last(), out@.last(), box_contains_floats));
                assert(flags_witness(prev_flag, box_contains_floats));
                assert(spec_finished_all(
                    *doc,
                    parent_node as int,
                    taken,
                    out@,
                    closed.contains_floats,
                    contains_floats,
                ));
            }
        }
        proof {
            assert(intermediates.take(intermediates.len() as int) =~= intermediates);
            assert(builder_witness(after_traverse, closed));
            assert(spec_built_endgame(
                *doc,
                parent_node as int,
                after_traverse,
                BlockContainer::BlockLevelBoxes(out),
                contains_floats,
            ));
            assert(builder_witness(start, after_traverse));
            assert(spec_built_container(
                *doc,
                parent_node,
                ps,
                BlockContainer::BlockLevelBoxes(out),
                contains_floats,
            ));
        }
        (BlockContainer::BlockLevelBoxes(out), contains_floats)
    }
}

/// Identity helper used to steer quantifier instantiation over a shifted
/// sequence.
pub open spec fn seq_at<A>(s: Seq<A>, i: int) -> A {
    s[i]
}

/// A frame with a lower `lo` is weaker.
proof fn lemma_weaken_frame(
    prev: BlockContainerBuilder,
    next: BlockContainerBuilder,
    lo1: int,
    lo2: int,
    hi: int,
)
    requires
        builder_frame(prev, next, lo1, hi),
        lo2 <= lo1,
    ensures
        builder_frame(prev, next, lo2, hi),
{
    let tail = next.block_level_boxes@.skip(prev.block_level_boxes@.len() as int);
    assert forall|i: int| 0 <= i < tail.len() implies ib_bound(#[trigger] tail[i], lo2, hi) by {
        assert(ib_bound(tail[i], lo1, hi));
    }
}

/// `handle_block_level_element` satisfies the traversal frame.
proof fn lemma_handled_block_frame(
    prev: BlockContainerBuilder,
    next: BlockContainerBuilder,
    style: Arc<ComputedValues>,
    element: NodeId,
    hi: int,
)
    requires
        spec_handled_block(prev, next, style, element),
        element < hi,
    ensures
        builder_frame(prev, next, element as int - 1, hi),
{
    let la = prev.block_level_boxes@.len() as int;
    let n = prev.ongoing_inline_boxes_stack@.len() as int;
    if n == 0 && prev.ongoing_inline_formatting_context.inline_level_boxes@.len() == 0 {
        assert(next.block_level_boxes@.subrange(0, la) =~= prev.block_level_boxes@);
        let tail = next.block_level_boxes@.skip(la);
        assert(tail.len() == 1);
        assert(tail[0] == next.block_level_boxes@.last());
        assert(ibs_bound(tail, element as int - 1, hi));
    } else {
        let tail = next.block_level_boxes@.skip(la);
        assert(tail.len() == 2);
        assert(tail[0] == next.block_level_boxes@[la]);
        assert(tail[1] == next.block_level_boxes@.last());
        assert(ibs_bound(tail, element as int - 1, hi));
    }
}

} // verus!
