//! Box-tree construction behavior: whitespace collapsing, block/inline
//! splitting, float flagging.

use std::sync::Arc;
use victor::boxes::{BlockContainer, BlockLevelBox, InlineLevelBox};
use victor::dom::Document;
use victor::style::{ComputedValues, Display, DisplayInside, DisplayOutside, Float, Position};

fn base_style() -> ComputedValues {
    *ComputedValues::initial()
}

fn block_style() -> Arc<ComputedValues> {
    let mut s = base_style();
    s.display = Display::Other { outside: DisplayOutside::Block, inside: DisplayInside::Flow };
    Arc::new(s)
}

fn inline_style() -> Arc<ComputedValues> {
    let mut s = base_style();
    s.display = Display::Other { outside: DisplayOutside::Inline, inside: DisplayInside::Flow };
    Arc::new(s)
}

fn float_style() -> Arc<ComputedValues> {
    let mut s = base_style();
    s.display = Display::Other { outside: DisplayOutside::Block, inside: DisplayInside::Flow };
    s.float = Float::Left;
    Arc::new(s)
}

fn abs_style() -> Arc<ComputedValues> {
    let mut s = base_style();
    s.display = Display::Other { outside: DisplayOutside::Block, inside: DisplayInside::Flow };
    s.position = Position::Absolute;
    Arc::new(s)
}

fn none_style() -> Arc<ComputedValues> {
    let mut s = base_style();
    s.display = Display::NoBox;
    Arc::new(s)
}

fn contents_style() -> Arc<ComputedValues> {
    let mut s = base_style();
    s.display = Display::Contents;
    Arc::new(s)
}

/// Text `"  a   b  "` at paragraph start collapses to `"a b "`.
#[test]
fn whitespace_collapsing() {
    let mut doc = Document::new();
    let body = doc.push_element(0, block_style());
    doc.push_text(body, b"  a   b  ".to_vec());
    let bfc = doc.box_tree();
    assert!(!bfc.contains_floats);
    match &bfc.contents {
        BlockContainer::BlockLevelBoxes(boxes) => {
            assert_eq!(boxes.len(), 1);
            match &boxes[0] {
                BlockLevelBox::SameFormattingContextBlock { contents, .. } => match contents {
                    BlockContainer::InlineFormattingContext(ifc) => {
                        assert_eq!(ifc.inline_level_boxes.len(), 1);
                        match &ifc.inline_level_boxes[0] {
                            InlineLevelBox::TextRun(run) => {
                                assert_eq!(run.text, b"a b ".to_vec());
                            }
                            _ => panic!("expected a text run"),
                        }
                    }
                    _ => panic!("expected an inline formatting context"),
                },
                _ => panic!("expected a same-formatting-context block"),
            }
        }
        _ => panic!("expected block-level boxes"),
    }
}

/// Leading whitespace is dropped when the previous run already ends in a
/// space, and kept when it does not.
#[test]
fn whitespace_across_text_nodes() {
    let mut doc = Document::new();
    let body = doc.push_element(0, block_style());
    doc.push_text(body, b"a ".to_vec());
    doc.push_text(body, b" b".to_vec());
    doc.push_text(body, b"c".to_vec());
    doc.push_text(body, b" d".to_vec());
    let bfc = doc.box_tree();
    match &bfc.contents {
        BlockContainer::BlockLevelBoxes(boxes) => match &boxes[0] {
            BlockLevelBox::SameFormattingContextBlock { contents, .. } => match contents {
                BlockContainer::InlineFormattingContext(ifc) => {
                    match &ifc.inline_level_boxes[0] {
                        InlineLevelBox::TextRun(run) => {
                            // "a " swallows the space before "b"; "c" does
                            // not, so the space before "d" survives.
                            assert_eq!(run.text, b"a bc d".to_vec());
                        }
                        _ => panic!("expected a text run"),
                    }
                }
                _ => panic!("expected an inline formatting context"),
            },
            _ => panic!("expected a same-formatting-context block"),
        },
        _ => panic!("expected block-level boxes"),
    }
}

/// Whitespace-only text at paragraph start contributes nothing at all.
#[test]
fn whitespace_only_text_at_paragraph_start() {
    let mut doc = Document::new();
    let body = doc.push_element(0, block_style());
    doc.push_text(body, b"   ".to_vec());
    let bfc = doc.box_tree();
    match &bfc.contents {
        BlockContainer::BlockLevelBoxes(boxes) => match &boxes[0] {
            BlockLevelBox::SameFormattingContextBlock { contents, .. } => match contents {
                BlockContainer::BlockLevelBoxes(inner) => assert_eq!(inner.len(), 0),
                _ => panic!("expected an empty list of block-level boxes"),
            },
            _ => panic!("expected the body block"),
        },
        _ => panic!("expected block-level boxes"),
    }
}

/// `<span>a <div>b</div>c</span>`: the span is fragmented around the div.
#[test]
fn block_inline_split() {
    let mut doc = Document::new();
    let body = doc.push_element(0, block_style());
    let span = doc.push_element(body, inline_style());
    doc.push_text(span, b"a ".to_vec());
    let div = doc.push_element(span, block_style());
    doc.push_text(div, b"b".to_vec());
    doc.push_text(span, b"c".to_vec());
    let bfc = doc.box_tree();
    let body_contents = match &bfc.contents {
        BlockContainer::BlockLevelBoxes(boxes) => {
            assert_eq!(boxes.len(), 1);
            match &boxes[0] {
                BlockLevelBox::SameFormattingContextBlock { contents, .. } => contents,
                _ => panic!("expected the body block"),
            }
        }
        _ => panic!("expected block-level boxes"),
    };
    match body_contents {
        BlockContainer::BlockLevelBoxes(boxes) => {
            assert_eq!(boxes.len(), 3);
            // 1. an anonymous block holding the first span fragment
            match &boxes[0] {
                BlockLevelBox::SameFormattingContextBlock { contents, .. } => match contents {
                    BlockContainer::InlineFormattingContext(ifc) => {
                        assert_eq!(ifc.inline_level_boxes.len(), 1);
                        match &ifc.inline_level_boxes[0] {
                            InlineLevelBox::InlineBox(b) => {
                                assert!(b.first_fragment);
                                assert!(!b.last_fragment);
                                assert_eq!(b.children.len(), 1);
                                match &b.children[0] {
                                    InlineLevelBox::TextRun(run) => {
                                        assert_eq!(run.text, b"a ".to_vec())
                                    }
                                    _ => panic!("expected a text run"),
                                }
                            }
                            _ => panic!("expected an inline box"),
                        }
                    }
                    _ => panic!("expected an inline formatting context"),
                },
                _ => panic!("expected an anonymous block"),
            }
            // 2. the div
            assert!(matches!(
                &boxes[1],
                BlockLevelBox::SameFormattingContextBlock { .. }
            ));
            // 3. an anonymous block holding the resumed span fragment
            match &boxes[2] {
                BlockLevelBox::SameFormattingContextBlock { contents, .. } => match contents {
                    BlockContainer::InlineFormattingContext(ifc) => {
                        match &ifc.inline_level_boxes[0] {
                            InlineLevelBox::InlineBox(b) => {
                                assert!(!b.first_fragment);
                                assert!(b.last_fragment);
                                match &b.children[0] {
                                    InlineLevelBox::TextRun(run) => {
                                        assert_eq!(run.text, b"c".to_vec())
                                    }
                                    _ => panic!("expected a text run"),
                                }
                            }
                            _ => panic!("expected an inline box"),
                        }
                    }
                    _ => panic!("expected an inline formatting context"),
                },
                _ => panic!("expected an anonymous block"),
            }
        }
        _ => panic!("expected block-level boxes"),
    }
}

/// A float anywhere in the container sets the container's float flag.
#[test]
fn float_sets_flag() {
    let mut doc = Document::new();
    let body = doc.push_element(0, block_style());
    doc.push_element(body, float_style());
    doc.push_element(body, block_style());
    let bfc = doc.box_tree();
    assert!(bfc.contains_floats);
}

/// Without floats the flag stays clear.
#[test]
fn no_float_no_flag() {
    let mut doc = Document::new();
    let body = doc.push_element(0, block_style());
    doc.push_element(body, block_style());
    let bfc = doc.box_tree();
    assert!(!bfc.contains_floats);
}

/// `display: none` produces nothing; `display: contents` splices children.
#[test]
fn display_none_and_contents() {
    let mut doc = Document::new();
    let body = doc.push_element(0, block_style());
    let hidden = doc.push_element(body, none_style());
    doc.push_text(hidden, b"invisible".to_vec());
    let spliced = doc.push_element(body, contents_style());
    doc.push_element(spliced, block_style());
    doc.push_element(spliced, block_style());
    let bfc = doc.box_tree();
    match &bfc.contents {
        BlockContainer::BlockLevelBoxes(boxes) => match &boxes[0] {
            BlockLevelBox::SameFormattingContextBlock { contents, .. } => match contents {
                BlockContainer::BlockLevelBoxes(inner) => assert_eq!(inner.len(), 2),
                _ => panic!("expected block-level boxes"),
            },
            _ => panic!("expected the body block"),
        },
        _ => panic!("expected block-level boxes"),
    }
}

/// An absolutely positioned element among inline content becomes an
/// inline-level out-of-flow box; among blocks, a block-level one.
#[test]
fn absolutely_positioned_placement() {
    let mut doc = Document::new();
    let body = doc.push_element(0, block_style());
    doc.push_text(body, b"x".to_vec());
    doc.push_element(body, abs_style());
    let bfc = doc.box_tree();
    match &bfc.contents {
        BlockContainer::BlockLevelBoxes(boxes) => match &boxes[0] {
            BlockLevelBox::SameFormattingContextBlock { contents, .. } => match contents {
                BlockContainer::InlineFormattingContext(ifc) => {
                    assert_eq!(ifc.inline_level_boxes.len(), 2);
                    assert!(matches!(
                        &ifc.inline_level_boxes[1],
                        InlineLevelBox::OutOfFlowAbsolutelyPositionedBox(_)
                    ));
                }
                _ => panic!("expected an inline formatting context"),
            },
            _ => panic!("expected the body block"),
        },
        _ => panic!("expected block-level boxes"),
    }

    let mut doc2 = Document::new();
    let body2 = doc2.push_element(0, block_style());
    doc2.push_element(body2, abs_style());
    let bfc2 = doc2.box_tree();
    match &bfc2.contents {
        BlockContainer::BlockLevelBoxes(boxes) => match &boxes[0] {
            BlockLevelBox::SameFormattingContextBlock { contents, .. } => match contents {
                BlockContainer::BlockLevelBoxes(inner) => {
                    assert_eq!(inner.len(), 1);
                    assert!(matches!(
                        &inner[0],
                        BlockLevelBox::OutOfFlowAbsolutelyPositionedBox(_)
                    ));
                }
                _ => panic!("expected block-level boxes"),
            },
            _ => panic!("expected the body block"),
        },
        _ => panic!("expected block-level boxes"),
    }
}

/// A container whose only content is inline *is* that inline formatting
/// context (no anonymous wrapper), at the level where that happens.
#[test]
fn inline_only_container() {
    let mut doc = Document::new();
    let body = doc.push_element(0, block_style());
    doc.push_text(body, b"only text".to_vec());
    let bfc = doc.box_tree();
    match &bfc.contents {
        BlockContainer::BlockLevelBoxes(boxes) => match &boxes[0] {
            BlockLevelBox::SameFormattingContextBlock { contents, .. } => {
                assert!(matches!(contents, BlockContainer::InlineFormattingContext(_)));
            }
            _ => panic!("expected the body block"),
        },
        _ => panic!("expected block-level boxes"),
    }
}
