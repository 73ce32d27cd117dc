//! Body value types.
use vstd::prelude::*;

use crate::math::{COORD_LIMIT, MASS_LIMIT, VEL_LIMIT};
use crate::vector::Vector3D;

verus! {

/// A point mass at a position: what a rendering or export collaborator
/// needs to know of a body.
#[derive(Clone, Copy, Debug, PartialEq, Eq, Structural)]
pub struct Body {
    /// Mass in milli-units; 0 is the "no body" sentinel.
    pub m: i64,
    /// Position.
    pub r: Vector3D,
}

/// A moving point mass: the full per-slot state a caller reads or writes.
#[derive(Clone, Copy, Debug, PartialEq, Eq, Structural)]
pub struct MovingBody {
    /// Mass in milli-units; 0 is the "no body" sentinel.
    pub m: i64,
    /// Position.
    pub r: Vector3D,
    /// Velocity.
    pub v: Vector3D,
}

/// The concrete 2D-plane simulation uses three-component vectors with a
/// zero third component, so the moving body type doubles as the 3D form.
pub type MovingBody3D = MovingBody;

impl MovingBody {
    /// The body's values are inside the representable ranges of the
    /// simulation: mass within the per-body cap, position and velocity
    /// componentwise within the coordinate and velocity limits.
    pub open spec fn valid(self) -> bool {
        &&& 0 <= self.m <= MASS_LIMIT
        &&& -COORD_LIMIT <= self.r.x <= COORD_LIMIT
        &&& -COORD_LIMIT <= self.r.y <= COORD_LIMIT
        &&& -COORD_LIMIT <= self.r.z <= COORD_LIMIT
        &&& -VEL_LIMIT <= self.v.x <= VEL_LIMIT
        &&& -VEL_LIMIT <= self.v.y <= VEL_LIMIT
        &&& -VEL_LIMIT <= self.v.z <= VEL_LIMIT
    }
}

} // verus!
