//! Concrete 3D vector on fixed-point coordinates.
use vstd::prelude::*;

verus! {

/// A 3D vector of fixed-point (milli-unit) components.
///
/// The simulation itself is two-dimensional; the third component is kept so
/// that positions, velocities and accelerations share one value type with a
/// componentwise bounds test, and it stays zero throughout a simulation.
#[derive(Clone, Copy, Debug, PartialEq, Eq, Structural)]
pub struct Vector3D {
    pub x: i64,
    pub y: i64,
    pub z: i64,
}

impl Vector3D {
    /// The zero vector.
    pub fn zero() -> (r: Self)
        ensures
            r.x == 0 && r.y == 0 && r.z == 0,
    {
        Self { x: 0, y: 0, z: 0 }
    }

    /// A vector in the simulation plane.
    pub fn from_xy(x: i64, y: i64) -> (r: Self)
        ensures
            r.x == x && r.y == y && r.z == 0,
    {
        Self { x, y, z: 0 }
    }

    /// The in-plane components.
    pub fn to_xy(self) -> (r: (i64, i64))
        ensures
            r.0 == self.x && r.1 == self.y,
    {
        (self.x, self.y)
    }

    /// Componentwise sum.
    pub fn add(self, rhs: Self) -> (r: Self)
        requires
            i64::MIN <= self.x + rhs.x <= i64::MAX,
            i64::MIN <= self.y + rhs.y <= i64::MAX,
            i64::MIN <= self.z + rhs.z <= i64::MAX,
        ensures
            r.x == self.x + rhs.x,
            r.y == self.y + rhs.y,
            r.z == self.z + rhs.z,
    {
        Self { x: self.x + rhs.x, y: self.y + rhs.y, z: self.z + rhs.z }
    }

    /// Componentwise sum, in place.
    pub fn add_assign(&mut self, rhs: Self)
        requires
            i64::MIN <= old(self).x + rhs.x <= i64::MAX,
            i64::MIN <= old(self).y + rhs.y <= i64::MAX,
            i64::MIN <= old(self).z + rhs.z <= i64::MAX,
        ensures
            final(self).x == old(self).x + rhs.x,
            final(self).y == old(self).y + rhs.y,
            final(self).z == old(self).z + rhs.z,
    {
        self.x = self.x + rhs.x;
        self.y = self.y + rhs.y;
        self.z = self.z + rhs.z;
    }

    /// Componentwise difference.
    pub fn sub(self, rhs: Self) -> (r: Self)
        requires
            i64::MIN <= self.x - rhs.x <= i64::MAX,
            i64::MIN <= self.y - rhs.y <= i64::MAX,
            i64::MIN <= self.z - rhs.z <= i64::MAX,
        ensures
            r.x == self.x - rhs.x,
            r.y == self.y - rhs.y,
            r.z == self.z - rhs.z,
    {
        Self { x: self.x - rhs.x, y: self.y - rhs.y, z: self.z - rhs.z }
    }

    /// Componentwise difference, in place.
    pub fn sub_assign(&mut self, rhs: Self)
        requires
            i64::MIN <= old(self).x - rhs.x <= i64::MAX,
            i64::MIN <= old(self).y - rhs.y <= i64::MAX,
            i64::MIN <= old(self).z - rhs.z <= i64::MAX,
        ensures
            final(self).x == old(self).x - rhs.x,
            final(self).y == old(self).y - rhs.y,
            final(self).z == old(self).z - rhs.z,
    {
        self.x = self.x - rhs.x;
        self.y = self.y - rhs.y;
        self.z = self.z - rhs.z;
    }

    /// Scalar multiple.
    pub fn mul(self, rhs: i64) -> (r: Self)
        requires
            i64::MIN <= self.x * rhs <= i64::MAX,
            i64::MIN <= self.y * rhs <= i64::MAX,
            i64::MIN <= self.z * rhs <= i64::MAX,
        ensures
            r.x == self.x * rhs,
            r.y == self.y * rhs,
            r.z == self.z * rhs,
    {
        Self { x: self.x * rhs, y: self.y * rhs, z: self.z * rhs }
    }

    /// Scalar multiple, in place.
    pub fn mul_assign(&mut self, rhs: i64)
        requires
            i64::MIN <= old(self).x * rhs <= i64::MAX,
            i64::MIN <= old(self).y * rhs <= i64::MAX,
            i64::MIN <= old(self).z * rhs <= i64::MAX,
        ensures
            final(self).x == old(self).x * rhs,
            final(self).y == old(self).y * rhs,
            final(self).z == old(self).z * rhs,
    {
        self.x = self.x * rhs;
        self.y = self.y * rhs;
        self.z = self.z * rhs;
    }

    /// Squared Euclidean length, exact in a wide integer.
    pub fn l2_sqrd(self) -> (r: i128)
        requires
            -0x200_0000_0000 <= self.x <= 0x200_0000_0000,
            -0x200_0000_0000 <= self.y <= 0x200_0000_0000,
            -0x200_0000_0000 <= self.z <= 0x200_0000_0000,
        ensures
            r == self.x * self.x + self.y * self.y + self.z * self.z,
            r >= 0,
    {
        let x: i128 = self.x as i128;
        let y: i128 = self.y as i128;
        let z: i128 = self.z as i128;
        proof {
            assert(x * x <= 0x200_0000_0000 * 0x200_0000_0000 && x * x >= 0) by (nonlinear_arith)
                requires
                    -0x200_0000_0000 <= x <= 0x200_0000_0000,
            ;
            assert(y * y <= 0x200_0000_0000 * 0x200_0000_0000 && y * y >= 0) by (nonlinear_arith)
                requires
                    -0x200_0000_0000 <= y <= 0x200_0000_0000,
            ;
            assert(z * z <= 0x200_0000_0000 * 0x200_0000_0000 && z * z >= 0) by (nonlinear_arith)
                requires
                    -0x200_0000_0000 <= z <= 0x200_0000_0000,
            ;
        }
        x * x + y * y + z * z
    }

    /// Componentwise range test against an axis-aligned box.
    pub fn in_bounds(self, min: &Self, max: &Self) -> (r: bool)
        ensures
            r == (min.x <= self.x <= max.x && min.y <= self.y <= max.y && min.z <= self.z
                <= max.z),
    {
        self.x >= min.x && self.x <= max.x && self.y >= min.y && self.y <= max.y && self.z >= min.z
            && self.z <= max.z
    }
}

} // verus!
