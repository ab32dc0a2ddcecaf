//! Integer barycentric coordinates of the points of a subdivided triangle.

use vstd::prelude::*;

verus! {

/// A point of a subdivided triangle in integer barycentric coordinates.
/// On a triangle of level `n` the three coordinates are nonnegative and add
/// up to `n`; the true position is the triple divided by `n`.
#[derive(Copy, Clone, Debug, PartialEq, Eq, Hash, Structural)]
pub struct LatticeVertex {
    pub x: i32,
    pub y: i32,
    pub z: i32,
}

/// The point with the given coordinates, the third one implied by the level.
pub open spec fn lattice_point(n: int, x: int, y: int) -> LatticeVertex {
    LatticeVertex { x: x as i32, y: y as i32, z: (n - x - y) as i32 }
}

impl LatticeVertex {
    /// Whether this is a point of the triangle of level `n`.
    pub open spec fn on_level(self, n: int) -> bool {
        &&& 0 <= self.x
        &&& 0 <= self.y
        &&& 0 <= self.z
        &&& self.x + self.y + self.z == n
    }

    /// Whether this point lies on none of the three sides.
    pub open spec fn is_interior(self) -> bool {
        self.x > 0 && self.y > 0 && self.z > 0
    }

    /// Whether this point is one of the three corners of the triangle.
    pub open spec fn is_corner(self) -> bool {
        (self.y == 0 && self.z == 0) || (self.x == 0 && self.z == 0) || (self.x == 0 && self.y
            == 0)
    }

    /// Coordinate-wise sum.
    pub open spec fn plus(self, rhs: Self) -> Self {
        LatticeVertex {
            x: (self.x + rhs.x) as i32,
            y: (self.y + rhs.y) as i32,
            z: (self.z + rhs.z) as i32,
        }
    }

    /// Coordinate-wise difference.
    pub open spec fn minus(self, rhs: Self) -> Self {
        LatticeVertex {
            x: (self.x - rhs.x) as i32,
            y: (self.y - rhs.y) as i32,
            z: (self.z - rhs.z) as i32,
        }
    }

    /// Whether the sum of the two points fits the coordinate type.
    pub open spec fn can_add(self, rhs: Self) -> bool {
        &&& i32::MIN <= self.x + rhs.x <= i32::MAX
        &&& i32::MIN <= self.y + rhs.y <= i32::MAX
        &&& i32::MIN <= self.z + rhs.z <= i32::MAX
    }

    /// Whether the difference of the two points fits the coordinate type.
    pub open spec fn can_subtract(self, rhs: Self) -> bool {
        &&& i32::MIN <= self.x - rhs.x <= i32::MAX
        &&& i32::MIN <= self.y - rhs.y <= i32::MAX
        &&& i32::MIN <= self.z - rhs.z <= i32::MAX
    }

    /// The point with the three given coordinates.
    pub fn new(x: i32, y: i32, z: i32) -> (v: Self)
        ensures
            v == (LatticeVertex { x, y, z }),
    {
        LatticeVertex { x, y, z }
    }

    /// The sum of the coordinates, which is the level the point belongs to.
    pub fn element_sum(&self) -> (sum: i64)
        ensures
            sum == self.x + self.y + self.z,
    {
        self.x as i64 + self.y as i64 + self.z as i64
    }
}

impl core::ops::Add for LatticeVertex {
    type Output = LatticeVertex;

    /// Coordinate-wise sum.
    fn add(self, rhs: Self) -> (sum: Self) {
        LatticeVertex { x: self.x + rhs.x, y: self.y + rhs.y, z: self.z + rhs.z }
    }
}

impl vstd::std_specs::ops::AddSpecImpl for LatticeVertex {
    open spec fn obeys_add_spec() -> bool {
        true
    }

    open spec fn add_req(self, rhs: Self) -> bool {
        self.can_add(rhs)
    }

    open spec fn add_spec(self, rhs: Self) -> Self {
        self.plus(rhs)
    }
}

impl core::ops::Sub for LatticeVertex {
    type Output = LatticeVertex;

    /// Coordinate-wise difference.
    fn sub(self, rhs: Self) -> (difference: Self) {
        LatticeVertex { x: self.x - rhs.x, y: self.y - rhs.y, z: self.z - rhs.z }
    }
}

impl vstd::std_specs::ops::SubSpecImpl for LatticeVertex {
    open spec fn obeys_sub_spec() -> bool {
        true
    }

    open spec fn sub_req(self, rhs: Self) -> bool {
        self.can_subtract(rhs)
    }

    open spec fn sub_spec(self, rhs: Self) -> Self {
        self.minus(rhs)
    }
}

} // verus!
