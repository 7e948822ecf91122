//! A headless rendering core: from a document tree and a stylesheet to a
//! canvas of pixels.
//!
//! The stages follow one another, each building a new value from the one
//! before it:
//!
//! 1. [`style::style_tree`] resolves the properties of every node by the
//!    cascade and leaves out what is hidden.
//! 2. [`layout::layout_tree`] builds the box tree and gives every box its
//!    place and size in the block model.
//! 3. [`canvas::paint`] lists the rectangles that the boxes paint and fills
//!    them in on a canvas, later ones over earlier ones.
//!
//! [`render::render`] runs the three in a row.
//!
//! All geometry is in whole pixels, held as `i32`: a result that does not
//! fit saturates at the bounds of the type.

pub mod boxes;
pub mod canvas;
pub mod cascade;
pub mod css;
pub mod dom;
pub mod export;
pub mod geometry;
pub mod layout;
pub mod matching;
pub mod painting;
pub mod properties;
pub mod render;
pub mod style;
pub mod text;
pub mod values;
