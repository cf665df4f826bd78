//! A software frame renderer for tiled ("block-linear") scan-out buffers, with a small
//! retained-mode layer of scenes, objects and key events on top.
//!
//! - `color`: packed RGBA8 colors and over-compositing.
//! - `render`: the linear scratch frame: clear, clipped rectangle fill, pixel blending.
//! - `tiling`: the linear-to-tiled layout conversion and its inverse.
//! - `event`, `object`, `scene`: per-frame input, registered key events, drawable objects.
//! - `gui`: the per-frame decisions of the present loop.
//! - `font`: fonts registered by name.

use vstd::prelude::*;

pub mod color;
pub mod render;
pub mod tiling;
pub mod event;
pub mod object;
pub mod scene;
pub mod gui;
pub mod font;

verus! {

} // verus!
