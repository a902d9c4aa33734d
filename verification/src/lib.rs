//! Verified engine for turning a bitmap image into a printable cross-stitch
//! pattern: palette extraction with a perceptual ordering, symbol assignment,
//! grid and label rendering on tiled canvases, page segmentation, a legend,
//! and a premultiplied-alpha "stitched preview" compositor.
//!
//! File decoding and encoding, fonts, paths and process concerns live outside
//! this crate; the functions here are pure from plain values to plain values.

pub mod pixel;
pub mod buffer;
pub mod blend;
pub mod hsl;
pub mod palette;
pub mod canvas;
pub mod numfmt;
pub mod font;
pub mod symbols;
pub mod labels;
pub mod compose;
pub mod segments;
pub mod legend;
pub mod rng;
pub mod preview;
pub mod patterns;
pub mod dirs;
