//! Unit behavior of the supporting pieces: lengths, geometry, the style
//! set's stable sort, pixel hex formatting, the document arena, and the
//! float context.

use std::sync::Arc;
use victor::cascade::StyleSetBuilder;
use victor::dom::{Document, NodeData};
use victor::float::FloatContext;
use victor::geom::{flow_relative, physical, Direction, WritingMode};
use victor::length::{Length, LengthOrAuto, LengthOrPercentage, Percentage, MAX_PX};
use victor::pixels::pixels_to_hex;
use victor::properties::Phases;
use victor::style::{BorderStyle, ComputedValues};

#[test]
fn length_arithmetic_saturates() {
    let a = Length { px: MAX_PX };
    let b = Length { px: 10 };
    assert_eq!(a.add(b).px, MAX_PX);
    assert_eq!(a.neg().px, -MAX_PX);
    assert_eq!(b.sub(a).px, 10 - MAX_PX);
    assert_eq!(Length { px: -MAX_PX }.sub(b).px, -MAX_PX);
    assert_eq!(Length::of_px(MAX_PX + 5).px, MAX_PX);
}

#[test]
fn length_half_rounds_towards_zero() {
    assert_eq!(Length { px: 7 }.half().px, 3);
    assert_eq!(Length { px: -7 }.half().px, -3);
    assert_eq!(Length { px: 8 }.half().px, 4);
}

#[test]
fn length_times_percentage() {
    let l = Length { px: 400 };
    assert_eq!(l.times(Percentage { per_myriad: 2500 }).px, 100);
    assert_eq!(l.times(Percentage { per_myriad: 10000 }).px, 400);
    assert_eq!(l.times(Percentage { per_myriad: 125 }).px, 5);
    // rounds towards zero
    assert_eq!(Length { px: 3 }.times(Percentage { per_myriad: 5000 }).px, 1);
    assert_eq!(Length { px: -3 }.times(Percentage { per_myriad: 5000 }).px, -1);
}

#[test]
fn length_max_min() {
    let a = Length { px: 3 };
    let b = Length { px: 5 };
    assert_eq!(a.max(b).px, 5);
    assert_eq!(a.min(b).px, 3);
    let mut c = a;
    c.max_assign(b);
    assert_eq!(c.px, 5);
}

#[test]
fn sides_to_flow_relative_horizontal_ltr() {
    let sides = physical::Sides { top: 1i64, left: 2i64, bottom: 3i64, right: 4i64 };
    let fr = sides.to_flow_relative((WritingMode::HorizontalTb, Direction::Ltr));
    assert_eq!(fr.block_start, 1);
    assert_eq!(fr.inline_start, 2);
    assert_eq!(fr.block_end, 3);
    assert_eq!(fr.inline_end, 4);
}

#[test]
fn sides_to_flow_relative_vertical_rl() {
    let sides = physical::Sides { top: 1i64, left: 2i64, bottom: 3i64, right: 4i64 };
    let fr = sides.to_flow_relative((WritingMode::VerticalRl, Direction::Ltr));
    assert_eq!(fr.block_start, 4);
    assert_eq!(fr.block_end, 2);
    assert_eq!(fr.inline_start, 1);
    assert_eq!(fr.inline_end, 3);
}

#[test]
fn size_round_trip() {
    let size = physical::Vec2 { x: 7i64, y: 9i64 };
    let mode = (WritingMode::HorizontalTb, Direction::Ltr);
    let fr = size.size_to_flow_relative(mode);
    assert_eq!(fr.inline, 7);
    assert_eq!(fr.block, 9);
    let back = fr.size_to_physical(mode);
    assert_eq!(back.x, 7);
    assert_eq!(back.y, 9);
}

#[test]
fn rect_inflate() {
    let rect = flow_relative::Rect {
        start_corner: flow_relative::Vec2 { inline: Length { px: 10 }, block: Length { px: 20 } },
        size: flow_relative::Vec2 { inline: Length { px: 100 }, block: Length { px: 50 } },
    };
    let sides = flow_relative::Sides {
        inline_start: Length { px: 1 },
        inline_end: Length { px: 2 },
        block_start: Length { px: 3 },
        block_end: Length { px: 4 },
    };
    let r = rect.inflate(&sides);
    assert_eq!(r.start_corner.inline.px, 9);
    assert_eq!(r.start_corner.block.px, 17);
    assert_eq!(r.size.inline.px, 103);
    assert_eq!(r.size.block.px, 57);
}

#[test]
fn style_set_sorts_stably() {
    let mut builder = StyleSetBuilder::new();
    builder.push_rule(2, 100);
    builder.push_rule(1, 101);
    builder.push_rule(2, 102);
    builder.push_rule(0, 103);
    builder.push_rule(1, 104);
    let set = builder.finish();
    let got: Vec<(u64, u64)> = (0..set.len())
        .map(|i| {
            let r = set.rule_at(i);
            (r.specificity, r.block)
        })
        .collect();
    // sorted by specificity; document order kept among equal specificities
    assert_eq!(got, vec![(0, 103), (1, 101), (1, 104), (2, 100), (2, 102)]);
}

#[test]
fn pixels_to_hex_formats() {
    assert_eq!(pixels_to_hex(&[]), "");
    assert_eq!(pixels_to_hex(&[0x0000002A]), "0000002A");
    assert_eq!(
        pixels_to_hex(&[0xFFFF_FFFF, 0x1234_ABCD, 0]),
        "FFFFFFFF, 1234ABCD, 00000000"
    );
}

#[test]
fn phases_accumulate() {
    let mut p = Phases::default();
    assert!(!p.any());
    p.bitor_assign(Phases { any_early: true, any_late: false });
    assert!(p.any());
    assert!(p.any_early);
    assert!(!p.any_late);
    p.bitor_assign(Phases { any_early: false, any_late: true });
    assert!(p.any_late);
}

#[test]
fn border_fixups_zero_hidden_borders() {
    let mut style = *ComputedValues::initial();
    style.border_width.top = LengthOrPercentage::Length(Length { px: 4 });
    style.border_width.left = LengthOrPercentage::Length(Length { px: 4 });
    style.border_style.left = BorderStyle::Solid;
    style.post_cascade_fixups();
    // top border style is none, so its width is zeroed; left stays
    assert_eq!(style.border_width.top, LengthOrPercentage::Length(Length { px: 0 }));
    assert_eq!(style.border_width.left, LengthOrPercentage::Length(Length { px: 4 }));
}

#[test]
fn arena_child_text_content() {
    let mut doc = Document::new();
    let body = doc.push_element(0, ComputedValues::initial());
    doc.push_text(body, b"hello ".to_vec());
    doc.push_element(body, ComputedValues::initial());
    doc.push_text(body, b"world".to_vec());
    assert_eq!(doc.child_text_content(body), b"hello world".to_vec());
}

#[test]
fn arena_detach_and_append() {
    let mut doc = Document::new();
    let a = doc.push_element(0, ComputedValues::initial());
    let b = doc.push_element(0, ComputedValues::initial());
    let c = doc.push_element(a, ComputedValues::initial());
    // move c from a to b
    doc.append(b, c);
    assert_eq!(doc.nodes[a].children.len(), 0);
    assert_eq!(doc.nodes[b].children, vec![c]);
    assert_eq!(doc.nodes[c].parent, Some(b));
    doc.detach(c);
    assert_eq!(doc.nodes[b].children.len(), 0);
    assert_eq!(doc.nodes[c].parent, None);
}

#[test]
fn arena_insert_before() {
    let mut doc = Document::new();
    let a = doc.push_element(0, ComputedValues::initial());
    let b = doc.push_element(a, ComputedValues::initial());
    let c = doc.push_element(a, ComputedValues::initial());
    // c currently follows b; move c before b
    doc.insert_before(b, c);
    assert_eq!(doc.nodes[a].children, vec![c, b]);
    assert_eq!(doc.nodes[c].parent, Some(a));
}

#[test]
fn arena_node_data() {
    let mut doc = Document::new();
    let t = doc.push_text(0, b"x".to_vec());
    assert!(matches!(doc.nodes[t].data, NodeData::Text { .. }));
    assert!(matches!(doc.nodes[0].data, NodeData::Document));
}

#[test]
fn float_context_cursor() {
    let mut root = FloatContext::root(Length { px: 100 });
    assert_eq!(root.block_cursor.px, 0);
    root.advance_block_start(Length { px: 30 });
    root.advance_block_start(Length { px: 12 });
    assert_eq!(root.block_cursor.px, 42);
    let child = root.child(
        Length { px: 80 },
        &flow_relative::Vec2 { inline: Length { px: 5 }, block: Length { px: 7 } },
    );
    assert_eq!(child.inline_size.px, 80);
    assert_eq!(child.origin.inline.px, 5);
    assert_eq!(child.origin.block.px, 49);
    assert_eq!(child.block_cursor.px, 0);
}

#[test]
fn length_or_auto_helpers() {
    let auto = LengthOrAuto::Auto;
    assert_eq!(auto.auto_is(Length { px: 9 }).px, 9);
    let def = LengthOrAuto::Length(Length { px: 4 });
    assert_eq!(def.auto_is(Length { px: 9 }).px, 4);
    let pct = victor::length::LengthOrPercentageOrAuto::Percentage(Percentage {
        per_myriad: 5000,
    });
    assert_eq!(pct.non_auto().is_some(), true);
    match pct.percentage_relative_to(Length { px: 60 }) {
        LengthOrAuto::Length(l) => assert_eq!(l.px, 30),
        LengthOrAuto::Auto => panic!("expected a length"),
    }
    let arc_style = Arc::new(*ComputedValues::initial());
    assert_eq!(arc_style.writing_mode(), (WritingMode::HorizontalTb, Direction::Ltr));
}
