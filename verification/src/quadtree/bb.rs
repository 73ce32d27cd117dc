//! Splittable axis-aligned bounding box on fixed-point coordinates.
use vstd::prelude::*;

use crate::math::COORD_LIMIT;

verus! {

/// Splittable bounding box in 2 dimensions.
///
/// Boxes live in the nonnegative quarter-plane, `[0, COORD_LIMIT]` on each
/// axis, which keeps every midpoint and every mass-weighted sum over points
/// of a box nonnegative.
#[derive(Clone, Copy, Debug, PartialEq, Eq, Structural)]
pub struct BoundingBox2D {
    pub min_x: i64,
    pub max_x: i64,
    pub min_y: i64,
    pub max_y: i64,
}

impl BoundingBox2D {
    /// The box is inside the admissible coordinate range, with both extents
    /// nonnegative.
    pub open spec fn wf(self) -> bool {
        &&& 0 <= self.min_x <= self.max_x <= COORD_LIMIT
        &&& 0 <= self.min_y <= self.max_y <= COORD_LIMIT
    }

    /// The point `(x, y)` lies in the box (borders included).
    pub open spec fn contains(self, x: int, y: int) -> bool {
        &&& self.min_x <= x <= self.max_x
        &&& self.min_y <= y <= self.max_y
    }

    /// The center X coordinate, rounded down.
    pub open spec fn cx_spec(self) -> int {
        (self.min_x + self.max_x) / 2
    }

    /// The center Y coordinate, rounded down.
    pub open spec fn cy_spec(self) -> int {
        (self.min_y + self.max_y) / 2
    }

    /// Quadrant of a point: bit 0 is set on the high X half, bit 1 on the
    /// high Y half.
    pub open spec fn quadrant_spec(self, x: int, y: int) -> int {
        (if x >= self.cx_spec() {
            1int
        } else {
            0int
        }) + (if y >= self.cy_spec() {
            2int
        } else {
            0int
        })
    }

    /// The sub-box of a quadrant; any value outside 0..3 keeps the whole box.
    pub open spec fn child_spec(self, quadrant: int) -> Self {
        if quadrant == 0 {
            Self {
                min_x: self.min_x,
                max_x: self.cx_spec() as i64,
                min_y: self.min_y,
                max_y: self.cy_spec() as i64,
            }
        } else if quadrant == 1 {
            Self {
                min_x: self.cx_spec() as i64,
                max_x: self.max_x,
                min_y: self.min_y,
                max_y: self.cy_spec() as i64,
            }
        } else if quadrant == 2 {
            Self {
                min_x: self.min_x,
                max_x: self.cx_spec() as i64,
                min_y: self.cy_spec() as i64,
                max_y: self.max_y,
            }
        } else if quadrant == 3 {
            Self {
                min_x: self.cx_spec() as i64,
                max_x: self.max_x,
                min_y: self.cy_spec() as i64,
                max_y: self.max_y,
            }
        } else {
            self
        }
    }

    /// Gets the center X position of the bounding box.
    pub fn cx(&self) -> (r: i64)
        requires
            self.wf(),
        ensures
            r == self.cx_spec(),
            self.min_x <= r <= self.max_x,
    {
        (self.min_x + self.max_x) / 2
    }

    /// Gets the center Y position of the bounding box.
    pub fn cy(&self) -> (r: i64)
        requires
            self.wf(),
        ensures
            r == self.cy_spec(),
            self.min_y <= r <= self.max_y,
    {
        (self.min_y + self.max_y) / 2
    }

    /// Gets the width of this bounding box (x direction).
    pub fn width(&self) -> (r: i64)
        requires
            self.wf(),
        ensures
            r == self.max_x - self.min_x,
            0 <= r <= COORD_LIMIT,
    {
        self.max_x - self.min_x
    }

    /// Returns the quadrant of a point.
    pub fn quadrant(&self, x: i64, y: i64) -> (r: usize)
        requires
            self.wf(),
        ensures
            r == self.quadrant_spec(x as int, y as int),
            r < 4,
    {
        let x_bit: usize = if x >= self.cx() {
            1
        } else {
            0
        };
        let y_bit: usize = if y >= self.cy() {
            2
        } else {
            0
        };
        x_bit + y_bit
    }

    /// Gets the sub-box of this bounding box for one quadrant.
    /// The low bit selects left (0) or right (1) in the x direction,
    /// the high bit bottom (0) or top (1) in the y direction.
    /// A quadrant outside 0..3 keeps the whole box.
    pub fn child(&self, quadrant: usize) -> (r: Self)
        requires
            self.wf(),
        ensures
            r == self.child_spec(quadrant as int),
            r.wf(),
            self.min_x <= r.min_x <= r.max_x <= self.max_x,
            self.min_y <= r.min_y <= r.max_y <= self.max_y,
    {
        match quadrant {
            0 => Self { min_x: self.min_x, max_x: self.cx(), min_y: self.min_y, max_y: self.cy() },
            1 => Self { min_x: self.cx(), max_x: self.max_x, min_y: self.min_y, max_y: self.cy() },
            2 => Self { min_x: self.min_x, max_x: self.cx(), min_y: self.cy(), max_y: self.max_y },
            3 => Self { min_x: self.cx(), max_x: self.max_x, min_y: self.cy(), max_y: self.max_y },
            _ => Self {
                min_x: self.min_x,
                max_x: self.max_x,
                min_y: self.min_y,
                max_y: self.max_y,
            },
        }
    }
}

/// The child box for the quadrant of a contained point contains that point.
pub proof fn lemma_child_contains(bb: BoundingBox2D, x: int, y: int)
    requires
        bb.wf(),
        bb.contains(x, y),
    ensures
        bb.child_spec(bb.quadrant_spec(x, y)).contains(x, y),
        bb.child_spec(bb.quadrant_spec(x, y)).wf(),
{
}

/// Every child box lies inside its parent and is well-formed.
pub proof fn lemma_child_sub(bb: BoundingBox2D, quadrant: int)
    requires
        bb.wf(),
    ensures
        bb.child_spec(quadrant).wf(),
        bb.min_x <= bb.child_spec(quadrant).min_x <= bb.child_spec(quadrant).max_x <= bb.max_x,
        bb.min_y <= bb.child_spec(quadrant).min_y <= bb.child_spec(quadrant).max_y <= bb.max_y,
{
}

/// Splitting at most halves each extent, rounding up.
pub proof fn lemma_child_shrinks(bb: BoundingBox2D, quadrant: int)
    requires
        bb.wf(),
        0 <= quadrant < 4,
    ensures
        2 * (bb.child_spec(quadrant).max_x - bb.child_spec(quadrant).min_x) <= bb.max_x - bb.min_x
            + 1,
        2 * (bb.child_spec(quadrant).max_y - bb.child_spec(quadrant).min_y) <= bb.max_y - bb.min_y
            + 1,
{
}

} // verus!
