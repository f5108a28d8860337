use vstd::prelude::*;

verus! {

/// Largest magnitude, in subpoints, that an incoming page coordinate may
/// have. 10^14 subpoints is roughly 787 million points, far beyond any page.
pub const COORD_MAX: i64 = 100_000_000_000_000;

/// A page rectangle in subpoints. The x-axis runs left to right and the
/// y-axis upward, as in a PDF: `left < right` and `bottom < top`.
#[derive(Copy, Clone, Debug, PartialEq, Eq, Structural)]
pub struct Rect {
    pub left: i64,
    pub right: i64,
    pub top: i64,
    pub bottom: i64,
}

impl Rect {
    /// A rectangle encloses a region exactly when its sides are ordered.
    pub open spec fn wf(self) -> bool {
        self.left < self.right && self.bottom < self.top
    }

    /// All four coordinates lie within `b` of the origin.
    pub open spec fn bounded(self, b: int) -> bool {
        &&& -b <= self.left <= b
        &&& -b <= self.right <= b
        &&& -b <= self.bottom <= b
        &&& -b <= self.top <= b
    }

    pub open spec fn width(self) -> int {
        self.right - self.left
    }

    pub open spec fn height(self) -> int {
        self.top - self.bottom
    }

    pub fn new(left: i64, right: i64, top: i64, bottom: i64) -> (r: Rect)
        ensures
            r == (Rect { left, right, top, bottom }),
    {
        Rect { left, right, top, bottom }
    }
}

} // verus!
