//! A grid ray-casting renderer: a DDA traversal of a 2D material grid, the
//! movement resolver built on it, and the column projection that turns the
//! traversal's hit events into screen strips and sprite slices.
//!
//! All geometry is in fixed point: one map cell is `vec::ONE` units.

use vstd::prelude::*;

pub mod map;
pub mod tex;
pub mod vec;
pub mod world;

verus! {

/// Width of the rendered frame, in pixels.
pub const WIDTH: u32 = 320;

/// Height of the rendered frame, in pixels.
pub const HEIGHT: u32 = 240;

} // verus!
