//! Panel geometry: points and rectangles in controller pixel coordinates.

use vstd::prelude::*;

verus! {

/// Panel width in pixels.
pub const PANEL_W: u8 = 128;

/// Panel height in pixels.
pub const PANEL_H: u8 = 128;

/// A pixel position in controller coordinates.
#[derive(Clone, Copy, Debug, PartialEq, Eq, Structural)]
pub struct Point {
    pub x: u8,
    pub y: u8,
}

impl Point {
    /// The point lies on the panel.
    pub open spec fn wf(self) -> bool {
        self.x < PANEL_W && self.y < PANEL_H
    }
}

/// A rectangle: top-left corner plus width and height.  A zero-area
/// rectangle is legal and draws nothing.
#[derive(Clone, Copy, Debug, PartialEq, Eq, Structural)]
pub struct Rect {
    pub x: u8,
    pub y: u8,
    pub w: u8,
    pub h: u8,
}

impl Rect {
    /// The rectangle lies entirely on the panel.
    pub open spec fn wf(self) -> bool {
        self.x + self.w <= PANEL_W && self.y + self.h <= PANEL_H
    }

    /// A degenerate rectangle covers no pixels.
    pub open spec fn is_degenerate(self) -> bool {
        self.w == 0 || self.h == 0
    }

    /// Every pixel of `self` is a pixel of `outer` (vacuous when degenerate).
    pub open spec fn within(self, outer: Rect) -> bool {
        self.is_degenerate() || (outer.x <= self.x && self.x + self.w <= outer.x + outer.w
            && outer.y <= self.y && self.y + self.h <= outer.y + outer.h)
    }

    /// The full addressable panel extent.
    pub fn full_panel() -> (r: Rect)
        ensures
            r == (Rect { x: 0, y: 0, w: PANEL_W, h: PANEL_H }),
    {
        Rect { x: 0, y: 0, w: PANEL_W, h: PANEL_H }
    }
}

} // verus!
