//! Rotations as quaternions with integer components.
//!
//! A quaternion `(w, x, y, z)` that is not zero stands for the rotation of its
//! normalised form. Its rotation matrix, multiplied by the squared norm
//! `w² + x² + y² + z²`, has integer entries, so rotating a lattice point gives a
//! point whose coordinates are exact fractions over that norm.

use vstd::prelude::*;
use crate::vector::{IVec3, lemma_product_bound};

verus! {

/// The largest magnitude of a quaternion component.
pub const QUAT_LIMIT: i64 = 1024;

/// A quaternion with integer components; `w` is the scalar part.
#[derive(Clone, Copy, Debug, PartialEq, Eq, Structural)]
pub struct IQuat {
    pub w: i64,
    pub x: i64,
    pub y: i64,
    pub z: i64,
}

/// A 3×3 matrix with integer entries, stored by rows.
#[derive(Clone, Copy, Debug, PartialEq, Eq, Structural)]
pub struct IMat3 {
    pub x_row: IVec3,
    pub y_row: IVec3,
    pub z_row: IVec3,
}

impl IQuat {
    /// The squared norm, which is the common denominator of the rotation matrix.
    pub open spec fn norm_sq(self) -> int {
        self.w * self.w + self.x * self.x + self.y * self.y + self.z * self.z
    }

    /// The components are within [`QUAT_LIMIT`] and not all zero.
    pub open spec fn wf(self) -> bool {
        &&& -QUAT_LIMIT <= self.w <= QUAT_LIMIT
        &&& -QUAT_LIMIT <= self.x <= QUAT_LIMIT
        &&& -QUAT_LIMIT <= self.y <= QUAT_LIMIT
        &&& -QUAT_LIMIT <= self.z <= QUAT_LIMIT
        &&& !(self.w == 0 && self.x == 0 && self.y == 0 && self.z == 0)
    }

    /// Entry (row x, column x) of the rotation matrix times the squared norm.
    pub open spec fn xx(self) -> int {
        self.w * self.w + self.x * self.x - self.y * self.y - self.z * self.z
    }

    pub open spec fn xy(self) -> int {
        2 * (self.x * self.y - self.w * self.z)
    }

    pub open spec fn xz(self) -> int {
        2 * (self.x * self.z + self.w * self.y)
    }

    pub open spec fn yx(self) -> int {
        2 * (self.x * self.y + self.w * self.z)
    }

    pub open spec fn yy(self) -> int {
        self.w * self.w - self.x * self.x + self.y * self.y - self.z * self.z
    }

    pub open spec fn yz(self) -> int {
        2 * (self.y * self.z - self.w * self.x)
    }

    pub open spec fn zx(self) -> int {
        2 * (self.x * self.z - self.w * self.y)
    }

    pub open spec fn zy(self) -> int {
        2 * (self.y * self.z + self.w * self.x)
    }

    pub open spec fn zz(self) -> int {
        self.w * self.w - self.x * self.x - self.y * self.y + self.z * self.z
    }

    /// The x coordinate of the rotated vector `(vx, vy, vz)`, times the squared norm.
    pub open spec fn rotate_x(self, vx: int, vy: int, vz: int) -> int {
        self.xx() * vx + self.xy() * vy + self.xz() * vz
    }

    pub open spec fn rotate_y(self, vx: int, vy: int, vz: int) -> int {
        self.yx() * vx + self.yy() * vy + self.yz() * vz
    }

    pub open spec fn rotate_z(self, vx: int, vy: int, vz: int) -> int {
        self.zx() * vx + self.zy() * vy + self.zz() * vz
    }

    /// The matrix agrees entry by entry with the scaled rotation matrix.
    pub open spec fn has_matrix(self, m: IMat3) -> bool {
        &&& m.x_row.x == self.xx() && m.x_row.y == self.xy() && m.x_row.z == self.xz()
        &&& m.y_row.x == self.yx() && m.y_row.y == self.yy() && m.y_row.z == self.yz()
        &&& m.z_row.x == self.zx() && m.z_row.y == self.zy() && m.z_row.z == self.zz()
    }

    /// The rotation that moves nothing.
    pub fn identity() -> (q: IQuat)
        ensures
            q == (IQuat { w: 1, x: 0, y: 0, z: 0 }),
            q.wf(),
    {
        IQuat { w: 1, x: 0, y: 0, z: 0 }
    }

    pub fn is_valid(&self) -> (valid: bool)
        ensures
            valid == self.wf(),
    {
        -QUAT_LIMIT <= self.w && self.w <= QUAT_LIMIT && -QUAT_LIMIT <= self.x && self.x
            <= QUAT_LIMIT && -QUAT_LIMIT <= self.y && self.y <= QUAT_LIMIT && -QUAT_LIMIT
            <= self.z && self.z <= QUAT_LIMIT && !(self.w == 0 && self.x == 0 && self.y == 0
            && self.z == 0)
    }

    /// The quaternion with the given components, unless they are out of range or all zero.
    pub fn new(w: i64, x: i64, y: i64, z: i64) -> (q: Option<IQuat>)
        ensures
            q.is_some() == (IQuat { w, x, y, z }).wf(),
            q.is_some() ==> q.unwrap() == (IQuat { w, x, y, z }),
    {
        let candidate = IQuat { w, x, y, z };
        if candidate.is_valid() {
            Some(candidate)
        } else {
            None
        }
    }

    pub fn norm_squared(&self) -> (n: i64)
        requires
            self.wf(),
        ensures
            n == self.norm_sq(),
            0 < n <= 4 * QUAT_LIMIT * QUAT_LIMIT,
    {
        proof {
            lemma_norm_sq_bounds(*self);
        }
        assert(self.w * self.w <= 1048576 && self.x * self.x <= 1048576 && self.y * self.y
            <= 1048576 && self.z * self.z <= 1048576) by {
            lemma_product_bound(self.w as int, self.w as int, 1024, 1024);
            lemma_product_bound(self.x as int, self.x as int, 1024, 1024);
            lemma_product_bound(self.y as int, self.y as int, 1024, 1024);
            lemma_product_bound(self.z as int, self.z as int, 1024, 1024);
        }
        assert(self.w * self.w >= 0 && self.x * self.x >= 0 && self.y * self.y >= 0 && self.z
            * self.z >= 0) by (nonlinear_arith);
        self.w * self.w + self.x * self.x + self.y * self.y + self.z * self.z
    }

    /// The rotation matrix times the squared norm.
    pub fn matrix(&self) -> (m: IMat3)
        requires
            self.wf(),
        ensures
            self.has_matrix(m),
    {
        let w: i64 = self.w;
        let x: i64 = self.x;
        let y: i64 = self.y;
        let z: i64 = self.z;
        proof {
            lemma_product_bound(w as int, w as int, 1024, 1024);
            lemma_product_bound(x as int, x as int, 1024, 1024);
            lemma_product_bound(y as int, y as int, 1024, 1024);
            lemma_product_bound(z as int, z as int, 1024, 1024);
            lemma_product_bound(x as int, y as int, 1024, 1024);
            lemma_product_bound(x as int, z as int, 1024, 1024);
            lemma_product_bound(y as int, z as int, 1024, 1024);
            lemma_product_bound(w as int, x as int, 1024, 1024);
            lemma_product_bound(w as int, y as int, 1024, 1024);
            lemma_product_bound(w as int, z as int, 1024, 1024);
        }
        let ww: i64 = w * w;
        let xx: i64 = x * x;
        let yy: i64 = y * y;
        let zz: i64 = z * z;
        let xy: i64 = x * y;
        let xz: i64 = x * z;
        let yz: i64 = y * z;
        let wx: i64 = w * x;
        let wy: i64 = w * y;
        let wz: i64 = w * z;
        IMat3 {
            x_row: IVec3 { x: ww + xx - yy - zz, y: 2 * (xy - wz), z: 2 * (xz + wy) },
            y_row: IVec3 { x: 2 * (xy + wz), y: ww - xx + yy - zz, z: 2 * (yz - wx) },
            z_row: IVec3 { x: 2 * (xz - wy), y: 2 * (yz + wx), z: ww - xx - yy + zz },
        }
    }
}

/// The squared norm of a valid quaternion is positive and at most `4 * QUAT_LIMIT²`.
pub proof fn lemma_norm_sq_bounds(q: IQuat)
    requires
        q.wf(),
    ensures
        0 < q.norm_sq() <= 4 * QUAT_LIMIT * QUAT_LIMIT,
{
    let (w, x, y, z) = (q.w as int, q.x as int, q.y as int, q.z as int);
    lemma_product_bound(w, w, 1024, 1024);
    lemma_product_bound(x, x, 1024, 1024);
    lemma_product_bound(y, y, 1024, 1024);
    lemma_product_bound(z, z, 1024, 1024);
    assert(w * w >= 0 && x * x >= 0 && y * y >= 0 && z * z >= 0) by (nonlinear_arith);
    assert(w != 0 ==> w * w > 0) by (nonlinear_arith);
    assert(x != 0 ==> x * x > 0) by (nonlinear_arith);
    assert(y != 0 ==> y * y > 0) by (nonlinear_arith);
    assert(z != 0 ==> z * z > 0) by (nonlinear_arith);
}

/// No entry of the scaled rotation matrix exceeds the squared norm in magnitude.
pub proof fn lemma_matrix_entries_bounded(q: IQuat)
    ensures
        -q.norm_sq() <= q.xx() <= q.norm_sq(),
        -q.norm_sq() <= q.xy() <= q.norm_sq(),
        -q.norm_sq() <= q.xz() <= q.norm_sq(),
        -q.norm_sq() <= q.yx() <= q.norm_sq(),
        -q.norm_sq() <= q.yy() <= q.norm_sq(),
        -q.norm_sq() <= q.yz() <= q.norm_sq(),
        -q.norm_sq() <= q.zx() <= q.norm_sq(),
        -q.norm_sq() <= q.zy() <= q.norm_sq(),
        -q.norm_sq() <= q.zz() <= q.norm_sq(),
{
    let (w, x, y, z) = (q.w as int, q.x as int, q.y as int, q.z as int);
    assert(w * w >= 0 && x * x >= 0 && y * y >= 0 && z * z >= 0) by (nonlinear_arith);
    lemma_twice_product(x, y);
    lemma_twice_product(w, z);
    lemma_twice_product(x, z);
    lemma_twice_product(w, y);
    lemma_twice_product(y, z);
    lemma_twice_product(w, x);
}

/// Twice a product lies between minus and plus the sum of the two squares.
proof fn lemma_twice_product(a: int, b: int)
    by (nonlinear_arith)
    ensures
        -(a * a + b * b) <= 2 * (a * b) <= a * a + b * b,
{
    assert((a - b) * (a - b) >= 0);
    assert((a + b) * (a + b) >= 0);
    assert((a - b) * (a - b) == a * a - 2 * (a * b) + b * b);
    assert((a + b) * (a + b) == a * a + 2 * (a * b) + b * b);
}

} // verus!
