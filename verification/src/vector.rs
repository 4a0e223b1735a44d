//! Vectors with integer components.

use vstd::prelude::*;

verus! {

/// A point or a displacement on the lattice, in ticks.
#[derive(Clone, Copy, Debug, PartialEq, Eq, Structural)]
pub struct IVec3 {
    pub x: i64,
    pub y: i64,
    pub z: i64,
}

/// A position on the screen, in pixels.
#[derive(Clone, Copy, Debug, PartialEq, Eq, Structural)]
pub struct IVec2 {
    pub x: i64,
    pub y: i64,
}

impl IVec2 {
    pub fn new(x: i64, y: i64) -> (v: IVec2)
        ensures
            v == (IVec2 { x, y }),
    {
        IVec2 { x, y }
    }
}

impl IVec3 {
    /// Every component lies in `[-limit, limit]`.
    pub open spec fn within(self, limit: int) -> bool {
        &&& -limit <= self.x <= limit
        &&& -limit <= self.y <= limit
        &&& -limit <= self.z <= limit
    }

    /// Every component lies in `[0, limit]`.
    pub open spec fn within_positive(self, limit: int) -> bool {
        &&& 0 <= self.x <= limit
        &&& 0 <= self.y <= limit
        &&& 0 <= self.z <= limit
    }

    pub open spec fn is_zero(self) -> bool {
        self.x == 0 && self.y == 0 && self.z == 0
    }

    /// The squared Euclidean length.
    pub open spec fn length_squared(self) -> int {
        self.x * self.x + self.y * self.y + self.z * self.z
    }

    pub fn new(x: i64, y: i64, z: i64) -> (v: IVec3)
        ensures
            v == (IVec3 { x, y, z }),
    {
        IVec3 { x, y, z }
    }

    /// The vector whose three components all equal `value`.
    pub fn splat(value: i64) -> (v: IVec3)
        ensures
            v == (IVec3 { x: value, y: value, z: value }),
    {
        IVec3 { x: value, y: value, z: value }
    }

    pub fn is_within(&self, limit: i64) -> (inside: bool)
        ensures
            inside == self.within(limit as int),
    {
        limit >= 0 && -limit <= self.x && self.x <= limit && -limit <= self.y && self.y <= limit
            && -limit <= self.z && self.z <= limit
    }

    pub fn is_within_positive(&self, limit: i64) -> (inside: bool)
        ensures
            inside == self.within_positive(limit as int),
    {
        0 <= self.x && self.x <= limit && 0 <= self.y && self.y <= limit && 0 <= self.z
            && self.z <= limit
    }
}

/// The absolute value of an integer.
pub open spec fn abs(a: int) -> int {
    if a < 0 {
        -a
    } else {
        a
    }
}

/// The product of two bounded integers is bounded by the product of the bounds.
pub proof fn lemma_product_bound(a: int, b: int, la: int, lb: int)
    by (nonlinear_arith)
    requires
        -la <= a <= la,
        -lb <= b <= lb,
    ensures
        -(la * lb) <= a * b <= la * lb,
{
}

} // verus!
