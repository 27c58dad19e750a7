//! The layout core of a document rendering engine: it turns a document tree
//! with per-element computed styles into a tree of positioned, sized
//! fragments.
//!
//! The two central pieces are box-tree construction (`construct`) — one
//! preorder traversal that classifies content into block-level boxes and
//! inline formatting contexts — and block-and-inline flow layout (`flow`),
//! which resolves the CSS box model and stacks fragments, fanning sibling
//! work out to a parallel worker pool wherever no float is involved.
//! Geometry lives in `geom` and `length`; lengths are integer pixel counts
//! with saturating arithmetic.

pub mod boxes;
pub mod cascade;
pub mod construct;
pub mod dom;
pub mod float;
pub mod flow;
pub mod fragments;
pub mod geom;
pub mod length;
pub mod pixels;
pub mod properties;
pub mod style;
