//! Flow layout behavior: stacking, auto margins, parallel/sequential
//! agreement, determinism, and static-position resolution.

use std::sync::Arc;
use victor::boxes::{BlockContainer, BlockLevelBox};
use victor::dom::Document;
use victor::float::FloatContext;
use victor::flow::{layout_block_level_children, layout_document, ContainingBlock};
use victor::fragments::Fragment;
use victor::geom::{flow_relative, Direction, WritingMode};
use victor::length::{Length, LengthOrAuto, LengthOrPercentageOrAuto, Percentage};
use victor::style::{ComputedValues, Display, DisplayInside, DisplayOutside, Float, Position};

fn base_style() -> ComputedValues {
    *ComputedValues::initial()
}

fn block_style() -> Arc<ComputedValues> {
    let mut s = base_style();
    s.display = Display::Other { outside: DisplayOutside::Block, inside: DisplayInside::Flow };
    Arc::new(s)
}

fn sized_block_style(width: Option<i64>, height: Option<i64>) -> Arc<ComputedValues> {
    let mut s = base_style();
    s.display = Display::Other { outside: DisplayOutside::Block, inside: DisplayInside::Flow };
    if let Some(w) = width {
        s.width = LengthOrPercentageOrAuto::Length(Length { px: w });
    }
    if let Some(h) = height {
        s.height = LengthOrPercentageOrAuto::Length(Length { px: h });
    }
    Arc::new(s)
}

fn viewport(inline: i64) -> ContainingBlock {
    ContainingBlock {
        inline_size: Length { px: inline },
        block_size: LengthOrAuto::Auto,
        mode: (WritingMode::HorizontalTb, Direction::Ltr),
    }
}

fn rect_of(f: &Fragment) -> flow_relative::Rect<Length> {
    match f {
        Fragment::Box(b) => b.content_rect.clone(),
        Fragment::Anonymous(a) => a.rect.clone(),
    }
}

/// Two sibling blocks of heights h1, h2 stack at offsets 0 and h1, and the
/// container's content block size is h1 + h2.
#[test]
fn vertical_stacking() {
    let mut doc = Document::new();
    let body = doc.push_element(0, block_style());
    doc.push_element(body, sized_block_style(None, Some(30)));
    doc.push_element(body, sized_block_style(None, Some(50)));
    let bfc = doc.box_tree();
    let (fragments, total) = layout_document(&bfc, &viewport(400));
    assert_eq!(fragments.len(), 1);
    match &fragments[0] {
        Fragment::Box(body_frag) => {
            assert_eq!(body_frag.content_rect.size.block.px, 80);
            assert_eq!(body_frag.children.len(), 2);
            assert_eq!(rect_of(&body_frag.children[0]).start_corner.block.px, 0);
            assert_eq!(rect_of(&body_frag.children[0]).size.block.px, 30);
            assert_eq!(rect_of(&body_frag.children[1]).start_corner.block.px, 30);
            assert_eq!(rect_of(&body_frag.children[1]).size.block.px, 50);
        }
        _ => panic!("expected the body fragment"),
    }
    assert_eq!(total.px, 80);
}

/// A block of definite width with both inline margins auto is centered:
/// both margins are (C - W) / 2 and the content rect starts there.
#[test]
fn auto_margin_centering() {
    let mut doc = Document::new();
    let body = doc.push_element(0, block_style());
    let mut child = base_style();
    child.display = Display::Other { outside: DisplayOutside::Block, inside: DisplayInside::Flow };
    child.width = LengthOrPercentageOrAuto::Length(Length { px: 100 });
    child.margin.left = LengthOrPercentageOrAuto::Auto;
    child.margin.right = LengthOrPercentageOrAuto::Auto;
    doc.push_element(body, Arc::new(child));
    let bfc = doc.box_tree();
    let (fragments, _) = layout_document(&bfc, &viewport(400));
    match &fragments[0] {
        Fragment::Box(body_frag) => match &body_frag.children[0] {
            Fragment::Box(child_frag) => {
                assert_eq!(child_frag.margin.inline_start.px, 150);
                assert_eq!(child_frag.margin.inline_end.px, 150);
                assert_eq!(child_frag.content_rect.start_corner.inline.px, 150);
                assert_eq!(child_frag.content_rect.size.inline.px, 100);
            }
            _ => panic!("expected the child fragment"),
        },
        _ => panic!("expected the body fragment"),
    }
}

/// One auto margin absorbs all the slack; over-constrained boxes push the
/// slack into the inline-end margin.
#[test]
fn single_auto_margin_absorbs_slack() {
    let mut doc = Document::new();
    let body = doc.push_element(0, block_style());
    let mut child = base_style();
    child.display = Display::Other { outside: DisplayOutside::Block, inside: DisplayInside::Flow };
    child.width = LengthOrPercentageOrAuto::Length(Length { px: 100 });
    child.margin.left = LengthOrPercentageOrAuto::Auto;
    doc.push_element(body, Arc::new(child));
    let bfc = doc.box_tree();
    let (fragments, _) = layout_document(&bfc, &viewport(400));
    match &fragments[0] {
        Fragment::Box(body_frag) => match &body_frag.children[0] {
            Fragment::Box(child_frag) => {
                assert_eq!(child_frag.margin.inline_start.px, 300);
                assert_eq!(child_frag.margin.inline_end.px, 0);
            }
            _ => panic!("expected the child fragment"),
        },
        _ => panic!("expected the body fragment"),
    }
}

/// Percentages resolve against the containing block's inline size.
#[test]
fn percentage_width() {
    let mut doc = Document::new();
    let body = doc.push_element(0, block_style());
    let mut child = base_style();
    child.display = Display::Other { outside: DisplayOutside::Block, inside: DisplayInside::Flow };
    child.width = LengthOrPercentageOrAuto::Percentage(Percentage { per_myriad: 2500 });
    doc.push_element(body, Arc::new(child));
    let bfc = doc.box_tree();
    let (fragments, _) = layout_document(&bfc, &viewport(400));
    match &fragments[0] {
        Fragment::Box(body_frag) => match &body_frag.children[0] {
            Fragment::Box(child_frag) => {
                assert_eq!(child_frag.content_rect.size.inline.px, 100);
            }
            _ => panic!("expected the child fragment"),
        },
        _ => panic!("expected the body fragment"),
    }
}

/// The parallel path (no float context) and the sequential path (with one)
/// produce identical fragment geometry for the same sibling list.
#[test]
fn parallel_equals_sequential() {
    let boxes: Vec<BlockLevelBox> = vec![
        BlockLevelBox::SameFormattingContextBlock {
            style: sized_block_style(Some(120), Some(25)),
            contents: BlockContainer::BlockLevelBoxes(Vec::new()),
        },
        BlockLevelBox::SameFormattingContextBlock {
            style: sized_block_style(None, Some(40)),
            contents: BlockContainer::BlockLevelBoxes(Vec::new()),
        },
        BlockLevelBox::SameFormattingContextBlock {
            style: sized_block_style(Some(33), None),
            contents: BlockContainer::BlockLevelBoxes(Vec::new()),
        },
    ];
    let cb = viewport(300);
    let mut no_floats: Option<FloatContext> = None;
    let (parallel, par_abs, par_size) = layout_block_level_children(&cb, &boxes, &mut no_floats);
    let mut with_floats = Some(FloatContext::root(cb.inline_size));
    let (sequential, seq_abs, seq_size) =
        layout_block_level_children(&cb, &boxes, &mut with_floats);
    assert_eq!(parallel.len(), sequential.len());
    assert_eq!(parallel.len(), boxes.len());
    for (p, s) in parallel.iter().zip(sequential.iter()) {
        assert_eq!(rect_of(p), rect_of(s));
    }
    assert_eq!(par_abs.len(), seq_abs.len());
    assert_eq!(par_size, seq_size);
}

/// Fragments of many siblings come out in document order: each one's height
/// identifies it, and each starts where its predecessors end.
#[test]
fn order_preserved_across_many_siblings() {
    let mut doc = Document::new();
    let body = doc.push_element(0, block_style());
    let heights: Vec<i64> = (1..=24).map(|k| k * 3).collect();
    for &h in &heights {
        doc.push_element(body, sized_block_style(None, Some(h)));
    }
    let bfc = doc.box_tree();
    let (fragments, _) = layout_document(&bfc, &viewport(500));
    match &fragments[0] {
        Fragment::Box(body_frag) => {
            assert_eq!(body_frag.children.len(), heights.len());
            let mut expected_offset = 0;
            for (child, &h) in body_frag.children.iter().zip(heights.iter()) {
                let rect = rect_of(child);
                assert_eq!(rect.size.block.px, h);
                assert_eq!(rect.start_corner.block.px, expected_offset);
                expected_offset += h;
            }
        }
        _ => panic!("expected the body fragment"),
    }
}

/// Laying the same tree out twice yields identical geometry.
#[test]
fn deterministic_layout() {
    let mut doc = Document::new();
    let body = doc.push_element(0, block_style());
    doc.push_element(body, sized_block_style(Some(10), Some(20)));
    doc.push_element(body, sized_block_style(None, Some(5)));
    let bfc = doc.box_tree();
    let (first, size1) = layout_document(&bfc, &viewport(200));
    let (second, size2) = layout_document(&bfc, &viewport(200));
    assert_eq!(size1, size2);
    assert_eq!(first.len(), second.len());
    for (a, b) in first.iter().zip(second.iter()) {
        assert_eq!(rect_of(a), rect_of(b));
    }
}

/// A tree with floats lays out (sequentially) without any failure, and its
/// in-flow geometry matches the no-float layout of the same blocks.
#[test]
fn floats_lay_out_sequentially() {
    let mut doc = Document::new();
    let body = doc.push_element(0, block_style());
    let mut float_child = base_style();
    float_child.display =
        Display::Other { outside: DisplayOutside::Block, inside: DisplayInside::Flow };
    float_child.float = Float::Left;
    doc.push_element(body, Arc::new(float_child));
    doc.push_element(body, sized_block_style(None, Some(10)));
    let bfc = doc.box_tree();
    assert!(bfc.contains_floats);
    let (fragments, total) = layout_document(&bfc, &viewport(100));
    assert_eq!(fragments.len(), 1);
    assert_eq!(total.px, 10);
}

/// An absolutely positioned box with auto insets resolves at its static
/// position: after a 40px-tall sibling, its fragment starts at block 40.
#[test]
fn absolute_static_position() {
    let mut doc = Document::new();
    let body = doc.push_element(0, block_style());
    doc.push_element(body, sized_block_style(None, Some(40)));
    let mut abs = base_style();
    abs.display = Display::Other { outside: DisplayOutside::Block, inside: DisplayInside::Flow };
    abs.position = Position::Absolute;
    abs.width = LengthOrPercentageOrAuto::Length(Length { px: 7 });
    abs.height = LengthOrPercentageOrAuto::Length(Length { px: 9 });
    doc.push_element(body, Arc::new(abs));
    let bfc = doc.box_tree();
    let (fragments, _) = layout_document(&bfc, &viewport(200));
    // the body fragment, then the resolved absolutely positioned fragment
    assert_eq!(fragments.len(), 2);
    match &fragments[1] {
        Fragment::Box(abs_frag) => {
            assert_eq!(abs_frag.content_rect.start_corner.block.px, 40);
            assert_eq!(abs_frag.content_rect.start_corner.inline.px, 0);
            assert_eq!(abs_frag.content_rect.size.inline.px, 7);
            assert_eq!(abs_frag.content_rect.size.block.px, 9);
        }
        _ => panic!("expected the resolved absolutely positioned fragment"),
    }
}

/// A relatively positioned box shifts by its insets and resolves its own
/// absolutely positioned descendants instead of passing them up.
#[test]
fn relative_position_and_containment() {
    let mut doc = Document::new();
    let body = doc.push_element(0, block_style());
    let mut rel = base_style();
    rel.display = Display::Other { outside: DisplayOutside::Block, inside: DisplayInside::Flow };
    rel.position = Position::Relative;
    rel.inset.left = LengthOrPercentageOrAuto::Length(Length { px: 11 });
    rel.inset.top = LengthOrPercentageOrAuto::Length(Length { px: 3 });
    rel.height = LengthOrPercentageOrAuto::Length(Length { px: 50 });
    let rel_id = doc.push_element(body, Arc::new(rel));
    let mut abs = base_style();
    abs.display = Display::Other { outside: DisplayOutside::Block, inside: DisplayInside::Flow };
    abs.position = Position::Absolute;
    doc.push_element(rel_id, Arc::new(abs));
    let bfc = doc.box_tree();
    let (fragments, _) = layout_document(&bfc, &viewport(200));
    // nothing bubbles to the root
    assert_eq!(fragments.len(), 1);
    match &fragments[0] {
        Fragment::Box(body_frag) => match &body_frag.children[0] {
            Fragment::Box(rel_frag) => {
                assert_eq!(rel_frag.content_rect.start_corner.inline.px, 11);
                assert_eq!(rel_frag.content_rect.start_corner.block.px, 3);
                // the abspos child was resolved here: placeholder + fragment
                assert_eq!(rel_frag.children.len(), 2);
            }
            _ => panic!("expected the relatively positioned fragment"),
        },
        _ => panic!("expected the body fragment"),
    }
}

/// An unsupported writing mode is rejected up front; the supported one is
/// accepted.
#[test]
fn unsupported_mode_rejected() {
    let mut doc = Document::new();
    doc.push_element(0, block_style());
    let bfc = doc.box_tree();
    let vertical = ContainingBlock {
        inline_size: Length { px: 100 },
        block_size: LengthOrAuto::Auto,
        mode: (WritingMode::VerticalRl, Direction::Ltr),
    };
    assert!(victor::flow::try_layout_document(&bfc, &vertical).is_none());
    assert!(victor::flow::try_layout_document(&bfc, &viewport(100)).is_some());
}

/// The containing block's definite block size resolves percentage heights.
#[test]
fn percentage_height_against_definite_block_size() {
    let mut doc = Document::new();
    let body = doc.push_element(0, block_style());
    let mut child = base_style();
    child.display = Display::Other { outside: DisplayOutside::Block, inside: DisplayInside::Flow };
    child.height = LengthOrPercentageOrAuto::Percentage(Percentage { per_myriad: 5000 });
    doc.push_element(body, Arc::new(child));
    let bfc = doc.box_tree();
    let cb = ContainingBlock {
        inline_size: Length { px: 100 },
        block_size: LengthOrAuto::Length(Length { px: 600 }),
        mode: (WritingMode::HorizontalTb, Direction::Ltr),
    };
    let (fragments, _) = layout_document(&bfc, &cb);
    match &fragments[0] {
        Fragment::Box(body_frag) => {
            // the body's own height is auto, so it wraps its child
            match &body_frag.children[0] {
                Fragment::Box(child_frag) => {
                    // the body's block size is auto, so the child's
                    // percentage height resolves against auto and is auto;
                    // the child has no content, so it is 0 tall
                    assert_eq!(child_frag.content_rect.size.block.px, 0);
                }
                _ => panic!("expected the child fragment"),
            }
        }
        _ => panic!("expected the body fragment"),
    }
}
