//! Axis-aligned bounding boxes of placed shapes.

use vstd::prelude::*;
use crate::rotation::{IMat3, IQuat, lemma_matrix_entries_bounded};
use crate::shape::{Cuboid, Shape, HALF_SIZE_LIMIT};
use crate::transform::{Transform, COORD_LIMIT};
use crate::vector::{abs, IVec3};

verus! {

/// The largest magnitude of a bounding box coordinate, in ticks.
pub const VOLUME_LIMIT: i64 = 16_777_216;

/// A box with faces parallel to the coordinate planes, given by two opposite corners.
#[derive(Clone, Copy, Debug, PartialEq, Eq, Structural)]
pub struct Aabb3d {
    pub min: IVec3,
    pub max: IVec3,
}

impl Aabb3d {
    pub open spec fn wf(self) -> bool {
        &&& self.min.within(VOLUME_LIMIT as int)
        &&& self.max.within(VOLUME_LIMIT as int)
        &&& self.min.x <= self.max.x
        &&& self.min.y <= self.max.y
        &&& self.min.z <= self.max.z
    }

    /// The box holds the point `(px / scale, py / scale, pz / scale)`.
    pub open spec fn contains_scaled(self, px: int, py: int, pz: int, scale: int) -> bool {
        &&& self.min.x * scale <= px <= self.max.x * scale
        &&& self.min.y * scale <= py <= self.max.y * scale
        &&& self.min.z * scale <= pz <= self.max.z * scale
    }

    /// Every point of `other` is a point of `self`.
    pub open spec fn encloses(self, other: Aabb3d) -> bool {
        &&& self.min.x <= other.min.x && other.max.x <= self.max.x
        &&& self.min.y <= other.min.y && other.max.y <= self.max.y
        &&& self.min.z <= other.min.z && other.max.z <= self.max.z
    }

    pub fn is_valid(&self) -> (valid: bool)
        ensures
            valid == self.wf(),
    {
        self.min.is_within(VOLUME_LIMIT) && self.max.is_within(VOLUME_LIMIT) && self.min.x
            <= self.max.x && self.min.y <= self.max.y && self.min.z <= self.max.z
    }

    /// The box with the given corners, unless they are out of range or out of order.
    pub fn new(min: IVec3, max: IVec3) -> (aabb: Option<Aabb3d>)
        ensures
            aabb.is_some() == (Aabb3d { min, max }).wf(),
            aabb.is_some() ==> aabb.unwrap() == (Aabb3d { min, max }),
    {
        let candidate = Aabb3d { min, max };
        if candidate.is_valid() {
            Some(candidate)
        } else {
            None
        }
    }
}

/// The least whole number of `unit`s that covers `amount`.
pub open spec fn ceil_div(amount: int, unit: int) -> int {
    (amount + unit - 1) / unit
}

/// How far a cuboid with half-extents `half` reaches along an axis whose row of the
/// scaled rotation matrix is `(a, b, c)`.
pub open spec fn reach(a: int, b: int, c: int, half: IVec3) -> int {
    abs(a) * half.x + abs(b) * half.y + abs(c) * half.z
}

impl Cuboid {
    /// Half the width of the bounding box along x once the cuboid is rotated by `q`.
    pub open spec fn extent_x(self, q: IQuat) -> int {
        ceil_div(reach(q.xx(), q.xy(), q.xz(), self.half_size), q.norm_sq())
    }

    pub open spec fn extent_y(self, q: IQuat) -> int {
        ceil_div(reach(q.yx(), q.yy(), q.yz(), self.half_size), q.norm_sq())
    }

    pub open spec fn extent_z(self, q: IQuat) -> int {
        ceil_div(reach(q.zx(), q.zy(), q.zz(), self.half_size), q.norm_sq())
    }

    /// The bounding box of the cuboid rotated by `rotation` and then moved by `translation`.
    pub open spec fn spec_aabb_3d(self, translation: IVec3, rotation: IQuat) -> Aabb3d {
        Aabb3d {
            min: IVec3 {
                x: (translation.x - self.extent_x(rotation)) as i64,
                y: (translation.y - self.extent_y(rotation)) as i64,
                z: (translation.z - self.extent_z(rotation)) as i64,
            },
            max: IVec3 {
                x: (translation.x + self.extent_x(rotation)) as i64,
                y: (translation.y + self.extent_y(rotation)) as i64,
                z: (translation.z + self.extent_z(rotation)) as i64,
            },
        }
    }

    /// The x coordinate, times the squared norm of `t.rotation`, of the placed corner
    /// whose signs are `(sx, sy, sz)`.
    pub open spec fn corner_x(self, t: Transform, sx: int, sy: int, sz: int) -> int {
        t.rotation.norm_sq() * t.translation.x + t.rotation.rotate_x(
            sx * self.half_size.x,
            sy * self.half_size.y,
            sz * self.half_size.z,
        )
    }

    pub open spec fn corner_y(self, t: Transform, sx: int, sy: int, sz: int) -> int {
        t.rotation.norm_sq() * t.translation.y + t.rotation.rotate_y(
            sx * self.half_size.x,
            sy * self.half_size.y,
            sz * self.half_size.z,
        )
    }

    pub open spec fn corner_z(self, t: Transform, sx: int, sy: int, sz: int) -> int {
        t.rotation.norm_sq() * t.translation.z + t.rotation.rotate_z(
            sx * self.half_size.x,
            sy * self.half_size.y,
            sz * self.half_size.z,
        )
    }

    /// Computes the bounding box from the absolute rotation matrix: along each axis the
    /// box reaches as far as the three half-extents, weighted by the magnitudes of that
    /// axis's row, add up to, rounded up to a whole tick.
    pub fn aabb_3d(&self, translation: IVec3, rotation: IQuat) -> (aabb: Aabb3d)
        requires
            self.wf(),
            translation.within(COORD_LIMIT as int),
            rotation.wf(),
        ensures
            aabb == self.spec_aabb_3d(translation, rotation),
            aabb.wf(),
            aabb.min.x == translation.x - self.extent_x(rotation),
            aabb.min.y == translation.y - self.extent_y(rotation),
            aabb.min.z == translation.z - self.extent_z(rotation),
            aabb.max.x == translation.x + self.extent_x(rotation),
            aabb.max.y == translation.y + self.extent_y(rotation),
            aabb.max.z == translation.z + self.extent_z(rotation),
    {
        let m: IMat3 = rotation.matrix();
        let n: i64 = rotation.norm_squared();
        proof {
            lemma_matrix_entries_bounded(rotation);
            lemma_extent_bounds(rotation.xx(), rotation.xy(), rotation.xz(), self.half_size, n as int);
            lemma_extent_bounds(rotation.yx(), rotation.yy(), rotation.yz(), self.half_size, n as int);
            lemma_extent_bounds(rotation.zx(), rotation.zy(), rotation.zz(), self.half_size, n as int);
        }
        let ex: i64 = row_extent(&m.x_row, &self.half_size, n);
        let ey: i64 = row_extent(&m.y_row, &self.half_size, n);
        let ez: i64 = row_extent(&m.z_row, &self.half_size, n);
        Aabb3d {
            min: IVec3 { x: translation.x - ex, y: translation.y - ey, z: translation.z - ez },
            max: IVec3 { x: translation.x + ex, y: translation.y + ey, z: translation.z + ez },
        }
    }
}

impl Shape {
    /// The bounding box of the shape under `transform`.
    pub open spec fn spec_aabb(self, transform: Transform) -> Aabb3d {
        match self {
            Shape::Box(cuboid) => cuboid.spec_aabb_3d(transform.translation, transform.rotation),
        }
    }

    pub fn aabb(&self, transform: &Transform) -> (aabb: Aabb3d)
        requires
            self.wf(),
            transform.wf(),
        ensures
            aabb == self.spec_aabb(*transform),
            aabb.wf(),
    {
        match self {
            Shape::Box(cuboid) => cuboid.aabb_3d(transform.translation, transform.rotation),
        }
    }
}

fn abs_i64(a: i64) -> (r: i64)
    requires
        a > i64::MIN,
    ensures
        r == abs(a as int),
{
    if a < 0 {
        -a
    } else {
        a
    }
}

/// The extent along the axis whose matrix row is `row`.
fn row_extent(row: &IVec3, half: &IVec3, n: i64) -> (extent: i64)
    requires
        0 < n <= 4_194_304,
        row.within(n as int),
        half.within_positive(HALF_SIZE_LIMIT as int),
    ensures
        extent == ceil_div(reach(row.x as int, row.y as int, row.z as int, *half), n as int),
{
    let a: i64 = abs_i64(row.x);
    let b: i64 = abs_i64(row.y);
    let c: i64 = abs_i64(row.z);
    proof {
        lemma_weight_bound(a as int, half.x as int, n as int, HALF_SIZE_LIMIT as int);
        lemma_weight_bound(b as int, half.y as int, n as int, HALF_SIZE_LIMIT as int);
        lemma_weight_bound(c as int, half.z as int, n as int, HALF_SIZE_LIMIT as int);
        assert(n * HALF_SIZE_LIMIT <= 4_194_304 * 2_097_152) by (nonlinear_arith)
            requires
                0 < n <= 4_194_304,
                HALF_SIZE_LIMIT == 2_097_152,
        ;
    }
    let total: i64 = a * half.x + b * half.y + c * half.z;
    (total + n - 1) / n
}

/// A weight in `[0, n]` times a half-extent in `[0, limit]` lies in `[0, n * limit]`
/// and is at most `n` times the half-extent.
proof fn lemma_weight_bound(weight: int, half: int, n: int, limit: int)
    by (nonlinear_arith)
    requires
        0 <= weight <= n,
        0 <= half <= limit,
    ensures
        0 <= weight * half <= n * limit,
        weight * half <= n * half,
{
}

/// `ceil_div` is the least multiplier of `unit` that covers `amount`.
pub proof fn lemma_ceil_div(amount: int, unit: int)
    by (nonlinear_arith)
    requires
        0 <= amount,
        0 < unit,
    ensures
        0 <= ceil_div(amount, unit),
        (ceil_div(amount, unit) - 1) * unit < amount <= ceil_div(amount, unit) * unit,
{
    let c = (amount + unit - 1) / unit;
    let r = (amount + unit - 1) % unit;
    assert(amount + unit - 1 == unit * c + r && 0 <= r < unit) by {
        vstd::arithmetic::div_mod::lemma_fundamental_div_mod(amount + unit - 1, unit);
        vstd::arithmetic::div_mod::lemma_mod_bound(amount + unit - 1, unit);
    }
}

/// A multiplier between two multiples: `(c - 1) * unit < amount <= k * unit` gives `c <= k`.
pub proof fn lemma_ceil_least(c: int, k: int, amount: int, unit: int)
    by (nonlinear_arith)
    requires
        0 < unit,
        (c - 1) * unit < amount,
        amount <= k * unit,
    ensures
        c <= k,
{
}

/// The extent along a row with entries in `[-n, n]` is at most the sum of the half-extents.
pub proof fn lemma_extent_bounds(a: int, b: int, c: int, half: IVec3, n: int)
    requires
        0 < n,
        -n <= a <= n,
        -n <= b <= n,
        -n <= c <= n,
        half.within_positive(HALF_SIZE_LIMIT as int),
    ensures
        0 <= reach(a, b, c, half) <= n * (half.x + half.y + half.z),
        0 <= ceil_div(reach(a, b, c, half), n) <= half.x + half.y + half.z,
{
    lemma_weight_bound(abs(a), half.x as int, n, HALF_SIZE_LIMIT as int);
    lemma_weight_bound(abs(b), half.y as int, n, HALF_SIZE_LIMIT as int);
    lemma_weight_bound(abs(c), half.z as int, n, HALF_SIZE_LIMIT as int);
    let total = reach(a, b, c, half);
    let sum = half.x + half.y + half.z;
    assert(n * sum == n * half.x + n * half.y + n * half.z) by (nonlinear_arith)
        requires
            sum == half.x + half.y + half.z,
    ;
    lemma_ceil_div(total, n);
    assert(sum * n == n * sum) by (nonlinear_arith);
    lemma_ceil_least(ceil_div(total, n), sum, total, n);
}

} // verus!
