use vstd::prelude::*;

verus! {

/// Clamps `v` into `[lo, hi]`; when `lo > hi` the lower bound wins.
pub open spec fn clamp(v: int, lo: int, hi: int) -> int {
    if v < lo {
        lo
    } else if v > hi {
        hi
    } else {
        v
    }
}

/// A grid coordinate.
#[derive(PartialEq, Eq, Structural, Hash, Clone, Copy, Debug)]
pub struct Point {
    pub x: i16,
    pub y: i16,
}

impl Point {
    /// Moves the point to the nearest position inside
    /// `[min_x, max_x] x [min_y, max_y]`.
    pub fn bound(&mut self, min_x: i16, min_y: i16, max_x: i16, max_y: i16)
        ensures
            final(self).x == clamp(old(self).x as int, min_x as int, max_x as int),
            final(self).y == clamp(old(self).y as int, min_y as int, max_y as int),
    {
        if self.x < min_x {
            self.x = min_x;
        } else if self.x > max_x {
            self.x = max_x;
        }
        if self.y < min_y {
            self.y = min_y;
        } else if self.y > max_y {
            self.y = max_y;
        }
    }
}

} // verus!
