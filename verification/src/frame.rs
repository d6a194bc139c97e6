//! The drawing interface the simulation renders into.
//!
//! The simulation does not talk to a device; it appends filled-rectangle
//! operations to a `Frame`, and the driver replays them onto whatever
//! surface it manages.  The contracts pin down the exact sequence of
//! operations, so draw order (and with it layering) is part of what is
//! verified.

use vstd::prelude::*;

use crate::color::Rgb;

verus! {

/// One filled-rectangle drawing operation: whole-pixel position of the
/// top-left corner, extent, and fill color.
#[derive(Clone, Copy, Debug, PartialEq, Eq, Structural)]
pub struct DrawOp {
    pub x: i64,
    pub y: i64,
    pub width: u32,
    pub height: u32,
    pub color: Rgb,
}

/// An ordered list of drawing operations for one rendered frame.
pub struct Frame {
    pub ops: Vec<DrawOp>,
}

impl Frame {
    /// An empty frame.
    pub fn new() -> (f: Frame)
        ensures
            f.ops@.len() == 0,
    {
        Frame { ops: Vec::new() }
    }

    /// Append one filled-rectangle operation.
    pub fn filled_rect(&mut self, x: i64, y: i64, width: u32, height: u32, color: Rgb)
        ensures
            final(self).ops@ == old(self).ops@.push(
                DrawOp { x, y, width, height, color },
            ),
    {
        self.ops.push(DrawOp { x, y, width, height, color });
    }
}

} // verus!
