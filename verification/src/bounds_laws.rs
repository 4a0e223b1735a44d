//! What holds of every bounding box: it holds the eight corners of the placed cuboid,
//! no box with whole coordinates that holds them is smaller, it is less than one tick
//! wider on each side than the least box of any kind, and under a turn by right angles
//! it has no slack at all.

use vstd::prelude::*;
use crate::bounds::{
    ceil_div,
    lemma_ceil_div,
    lemma_ceil_least,
    lemma_extent_bounds,
    reach,
    Aabb3d,
};
use crate::rotation::{IQuat, lemma_matrix_entries_bounded, lemma_norm_sq_bounds};
use crate::shape::{Cuboid, HALF_SIZE_LIMIT};
use crate::transform::Transform;
use crate::vector::{abs, IVec3};

verus! {

/// `s` is `1` or `-1`.
pub open spec fn is_sign(s: int) -> bool {
    s == 1 || s == -1
}

/// The sign that makes `a * sign_of(a)` the magnitude of `a`.
pub open spec fn sign_of(a: int) -> int {
    if a < 0 {
        -1
    } else {
        1
    }
}

/// Every entry of the scaled rotation matrix is zero or plus or minus the squared norm:
/// the rotation maps each coordinate axis onto a coordinate axis, as the rotations by
/// multiples of a right angle about a coordinate axis do.
pub open spec fn maps_axes_to_axes(q: IQuat) -> bool {
    let n = q.norm_sq();
    &&& q.xx() == 0 || q.xx() == n || q.xx() == -n
    &&& q.xy() == 0 || q.xy() == n || q.xy() == -n
    &&& q.xz() == 0 || q.xz() == n || q.xz() == -n
    &&& q.yx() == 0 || q.yx() == n || q.yx() == -n
    &&& q.yy() == 0 || q.yy() == n || q.yy() == -n
    &&& q.yz() == 0 || q.yz() == n || q.yz() == -n
    &&& q.zx() == 0 || q.zx() == n || q.zx() == -n
    &&& q.zy() == 0 || q.zy() == n || q.zy() == -n
    &&& q.zz() == 0 || q.zz() == n || q.zz() == -n
}

/// A turn about one coordinate axis by a multiple of a right angle maps axes to axes.
/// Such a turn has a quaternion with at most one vector component, which is zero, or
/// plus or minus the scalar part, or stands alone.
pub proof fn lemma_right_angle_turns_map_axes(q: IQuat)
    requires
        (q.y == 0 && q.z == 0 && (q.w == 0 || q.x == 0 || q.w == q.x || q.w == -q.x)) || (q.x == 0
            && q.z == 0 && (q.w == 0 || q.y == 0 || q.w == q.y || q.w == -q.y)) || (q.x == 0 && q.y
            == 0 && (q.w == 0 || q.z == 0 || q.w == q.z || q.w == -q.z)),
    ensures
        maps_axes_to_axes(q),
{
    let (w, x, y, z) = (q.w as int, q.x as int, q.y as int, q.z as int);
    if y == 0 && z == 0 {
        lemma_right_angle_pair(w, x);
    } else if x == 0 && z == 0 {
        lemma_right_angle_pair(w, y);
    } else {
        lemma_right_angle_pair(w, z);
    }
}

/// The products that the matrix of a turn about one axis is made of.
proof fn lemma_right_angle_pair(w: int, v: int)
    by (nonlinear_arith)
    requires
        w == 0 || v == 0 || w == v || w == -v,
    ensures
        w * w - v * v == 0 || w * w - v * v == w * w + v * v || w * w - v * v == -(w * w + v * v),
        2 * (w * v) == 0 || 2 * (w * v) == w * w + v * v || 2 * (w * v) == -(w * w + v * v),
        w * 0 == 0 && v * 0 == 0 && 0 * w == 0 && 0 * v == 0 && 0 * 0 == 0,
{
}

/// One term of a rotated corner is at most the matching term of the reach, and equals
/// it where the sign of the corner agrees with the sign of the matrix entry.
proof fn lemma_term(a: int, s: int, h: int)
    by (nonlinear_arith)
    requires
        is_sign(s),
        0 <= h,
    ensures
        -(abs(a) * h) <= a * (s * h) <= abs(a) * h,
        s == sign_of(a) ==> a * (s * h) == abs(a) * h,
        s == -sign_of(a) ==> a * (s * h) == -(abs(a) * h),
{
}

/// Along one axis, a corner lies within the extent on both sides of the centre.
proof fn lemma_axis_contains(
    a: int,
    b: int,
    c: int,
    half: IVec3,
    n: int,
    centre: int,
    sx: int,
    sy: int,
    sz: int,
)
    requires
        0 < n,
        half.within_positive(HALF_SIZE_LIMIT as int),
        is_sign(sx),
        is_sign(sy),
        is_sign(sz),
    ensures
        (centre - ceil_div(reach(a, b, c, half), n)) * n <= n * centre + (a * (sx * half.x) + b * (
        sy * half.y) + c * (sz * half.z)),
        n * centre + (a * (sx * half.x) + b * (sy * half.y) + c * (sz * half.z)) <= (centre
            + ceil_div(reach(a, b, c, half), n)) * n,
{
    lemma_term(a, sx, half.x as int);
    lemma_term(b, sy, half.y as int);
    lemma_term(c, sz, half.z as int);
    let total = reach(a, b, c, half);
    assert(abs(a) * half.x >= 0 && abs(b) * half.y >= 0 && abs(c) * half.z >= 0)
        by (nonlinear_arith)
        requires
            half.x >= 0,
            half.y >= 0,
            half.z >= 0,
    ;
    lemma_ceil_div(total, n);
    let e = ceil_div(total, n);
    assert((centre - e) * n == n * centre - e * n && (centre + e) * n == n * centre + e * n)
        by (nonlinear_arith);
}

/// Along one axis, an interval `[low, high]` that holds the two extreme corners holds
/// the whole extent on both sides of the centre.
proof fn lemma_axis_least(
    a: int,
    b: int,
    c: int,
    half: IVec3,
    n: int,
    centre: int,
    low: int,
    high: int,
)
    requires
        0 < n,
        half.within_positive(HALF_SIZE_LIMIT as int),
        n * centre + (a * (sign_of(a) * half.x) + b * (sign_of(b) * half.y) + c * (sign_of(c)
            * half.z)) <= high * n,
        low * n <= n * centre + (a * ((-sign_of(a)) * half.x) + b * ((-sign_of(b)) * half.y) + c
            * ((-sign_of(c)) * half.z)),
    ensures
        low <= centre - ceil_div(reach(a, b, c, half), n),
        centre + ceil_div(reach(a, b, c, half), n) <= high,
{
    lemma_term(a, sign_of(a), half.x as int);
    lemma_term(b, sign_of(b), half.y as int);
    lemma_term(c, sign_of(c), half.z as int);
    lemma_term(a, -sign_of(a), half.x as int);
    lemma_term(b, -sign_of(b), half.y as int);
    lemma_term(c, -sign_of(c), half.z as int);
    let total = reach(a, b, c, half);
    assert(abs(a) * half.x >= 0 && abs(b) * half.y >= 0 && abs(c) * half.z >= 0)
        by (nonlinear_arith)
        requires
            half.x >= 0,
            half.y >= 0,
            half.z >= 0,
    ;
    lemma_ceil_div(total, n);
    let e = ceil_div(total, n);
    assert((high - centre) * n == high * n - n * centre && (centre - low) * n == n * centre - low
        * n) by (nonlinear_arith);
    lemma_ceil_least(e, high - centre, total, n);
    lemma_ceil_least(e, centre - low, total, n);
}

/// The bounding box holds each of the eight corners of the placed cuboid, whatever the
/// rotation.
pub proof fn lemma_aabb_contains_corners(cuboid: Cuboid, t: Transform, sx: int, sy: int, sz: int)
    requires
        cuboid.wf(),
        t.wf(),
        is_sign(sx),
        is_sign(sy),
        is_sign(sz),
    ensures
        cuboid.spec_aabb_3d(t.translation, t.rotation).contains_scaled(
            cuboid.corner_x(t, sx, sy, sz),
            cuboid.corner_y(t, sx, sy, sz),
            cuboid.corner_z(t, sx, sy, sz),
            t.rotation.norm_sq(),
        ),
{
    let q = t.rotation;
    let n = q.norm_sq();
    let h = cuboid.half_size;
    lemma_norm_sq_bounds(q);
    lemma_aabb_fields(cuboid, t);
    lemma_axis_contains(q.xx(), q.xy(), q.xz(), h, n, t.translation.x as int, sx, sy, sz);
    lemma_axis_contains(q.yx(), q.yy(), q.yz(), h, n, t.translation.y as int, sx, sy, sz);
    lemma_axis_contains(q.zx(), q.zy(), q.zz(), h, n, t.translation.z as int, sx, sy, sz);
}

/// The fields of the bounding box are the centre minus and plus the extents, and the
/// box is well formed.
pub proof fn lemma_aabb_fields(cuboid: Cuboid, t: Transform)
    requires
        cuboid.wf(),
        t.wf(),
    ensures
        ({
            let aabb = cuboid.spec_aabb_3d(t.translation, t.rotation);
            &&& aabb.wf()
            &&& aabb.min.x == t.translation.x - cuboid.extent_x(t.rotation)
            &&& aabb.min.y == t.translation.y - cuboid.extent_y(t.rotation)
            &&& aabb.min.z == t.translation.z - cuboid.extent_z(t.rotation)
            &&& aabb.max.x == t.translation.x + cuboid.extent_x(t.rotation)
            &&& aabb.max.y == t.translation.y + cuboid.extent_y(t.rotation)
            &&& aabb.max.z == t.translation.z + cuboid.extent_z(t.rotation)
            &&& 0 <= cuboid.extent_x(t.rotation) <= 3 * HALF_SIZE_LIMIT
            &&& 0 <= cuboid.extent_y(t.rotation) <= 3 * HALF_SIZE_LIMIT
            &&& 0 <= cuboid.extent_z(t.rotation) <= 3 * HALF_SIZE_LIMIT
        }),
{
    let q = t.rotation;
    lemma_norm_sq_bounds(q);
    lemma_matrix_entries_bounded(q);
    lemma_extent_bounds(q.xx(), q.xy(), q.xz(), cuboid.half_size, q.norm_sq());
    lemma_extent_bounds(q.yx(), q.yy(), q.yz(), cuboid.half_size, q.norm_sq());
    lemma_extent_bounds(q.zx(), q.zy(), q.zz(), cuboid.half_size, q.norm_sq());
}

/// The bounding box is the least box with whole coordinates that holds the eight
/// corners: any such box encloses it.
pub proof fn lemma_aabb_is_least(cuboid: Cuboid, t: Transform, other: Aabb3d)
    requires
        cuboid.wf(),
        t.wf(),
        forall|sx: int, sy: int, sz: int|
            is_sign(sx) && is_sign(sy) && is_sign(sz) ==> other.contains_scaled(
                #[trigger] cuboid.corner_x(t, sx, sy, sz),
                cuboid.corner_y(t, sx, sy, sz),
                cuboid.corner_z(t, sx, sy, sz),
                t.rotation.norm_sq(),
            ),
    ensures
        other.encloses(cuboid.spec_aabb_3d(t.translation, t.rotation)),
{
    let q = t.rotation;
    let n = q.norm_sq();
    let h = cuboid.half_size;
    lemma_norm_sq_bounds(q);
    lemma_aabb_fields(cuboid, t);
    // The corner that reaches farthest along +x, and its opposite.
    let (ax, bx, cx) = (sign_of(q.xx()), sign_of(q.xy()), sign_of(q.xz()));
    assert(other.contains_scaled(
        cuboid.corner_x(t, ax, bx, cx),
        cuboid.corner_y(t, ax, bx, cx),
        cuboid.corner_z(t, ax, bx, cx),
        n,
    ));
    assert(other.contains_scaled(
        cuboid.corner_x(t, -ax, -bx, -cx),
        cuboid.corner_y(t, -ax, -bx, -cx),
        cuboid.corner_z(t, -ax, -bx, -cx),
        n,
    ));
    lemma_axis_least(
        q.xx(),
        q.xy(),
        q.xz(),
        h,
        n,
        t.translation.x as int,
        other.min.x as int,
        other.max.x as int,
    );
    let (ay, by, cy) = (sign_of(q.yx()), sign_of(q.yy()), sign_of(q.yz()));
    assert(other.contains_scaled(
        cuboid.corner_x(t, ay, by, cy),
        cuboid.corner_y(t, ay, by, cy),
        cuboid.corner_z(t, ay, by, cy),
        n,
    ));
    assert(other.contains_scaled(
        cuboid.corner_x(t, -ay, -by, -cy),
        cuboid.corner_y(t, -ay, -by, -cy),
        cuboid.corner_z(t, -ay, -by, -cy),
        n,
    ));
    lemma_axis_least(
        q.yx(),
        q.yy(),
        q.yz(),
        h,
        n,
        t.translation.y as int,
        other.min.y as int,
        other.max.y as int,
    );
    let (az, bz, cz) = (sign_of(q.zx()), sign_of(q.zy()), sign_of(q.zz()));
    assert(other.contains_scaled(
        cuboid.corner_x(t, az, bz, cz),
        cuboid.corner_y(t, az, bz, cz),
        cuboid.corner_z(t, az, bz, cz),
        n,
    ));
    assert(other.contains_scaled(
        cuboid.corner_x(t, -az, -bz, -cz),
        cuboid.corner_y(t, -az, -bz, -cz),
        cuboid.corner_z(t, -az, -bz, -cz),
        n,
    ));
    lemma_axis_least(
        q.zx(),
        q.zy(),
        q.zz(),
        h,
        n,
        t.translation.z as int,
        other.min.z as int,
        other.max.z as int,
    );
}

/// Without rotation the box reaches exactly the half-extents on each side of the centre.
pub proof fn lemma_unrotated_extents(cuboid: Cuboid, t: Transform)
    requires
        cuboid.wf(),
        t.wf(),
        t.rotation.x == 0,
        t.rotation.y == 0,
        t.rotation.z == 0,
    ensures
        cuboid.extent_x(t.rotation) == cuboid.half_size.x,
        cuboid.extent_y(t.rotation) == cuboid.half_size.y,
        cuboid.extent_z(t.rotation) == cuboid.half_size.z,
        cuboid.spec_aabb_3d(t.translation, t.rotation) == (Aabb3d {
            min: IVec3 {
                x: (t.translation.x - cuboid.half_size.x) as i64,
                y: (t.translation.y - cuboid.half_size.y) as i64,
                z: (t.translation.z - cuboid.half_size.z) as i64,
            },
            max: IVec3 {
                x: (t.translation.x + cuboid.half_size.x) as i64,
                y: (t.translation.y + cuboid.half_size.y) as i64,
                z: (t.translation.z + cuboid.half_size.z) as i64,
            },
        }),
{
    let q = t.rotation;
    let n = q.norm_sq();
    let h = cuboid.half_size;
    lemma_norm_sq_bounds(q);
    assert(q.xx() == n && q.yy() == n && q.zz() == n);
    assert(q.xy() == 0 && q.xz() == 0 && q.yx() == 0 && q.yz() == 0 && q.zx() == 0 && q.zy() == 0);
    assert(reach(n, 0, 0, h) == h.x * n && reach(0, n, 0, h) == h.y * n && reach(0, 0, n, h)
        == h.z * n) by (nonlinear_arith)
        requires
            0 < n,
    ;
    lemma_exact_extent(n, 0, 0, h, n, h.x as int);
    lemma_exact_extent(0, n, 0, h, n, h.y as int);
    lemma_exact_extent(0, 0, n, h, n, h.z as int);
    lemma_aabb_fields(cuboid, t);
}

/// Where the reach is a whole multiple of the unit, the extent is that multiple.
proof fn lemma_exact_extent(a: int, b: int, c: int, half: IVec3, n: int, k: int)
    requires
        0 < n,
        0 <= k,
        reach(a, b, c, half) == k * n,
    ensures
        ceil_div(reach(a, b, c, half), n) == k,
{
    let total = reach(a, b, c, half);
    assert(0 <= k * n) by (nonlinear_arith)
        requires
            0 < n,
            0 <= k,
    ;
    lemma_ceil_div(total, n);
    let e = ceil_div(total, n);
    lemma_ceil_least(e, k, total, n);
    assert(k <= e) by (nonlinear_arith)
        requires
            0 < n,
            k * n <= e * n,
    ;
}

/// An entry that is zero or plus or minus `n` weighs a half-extent fully or not at all.
proof fn lemma_axis_weight(a: int, n: int, h: int)
    by (nonlinear_arith)
    requires
        0 < n,
        a == 0 || a == n || a == -n,
    ensures
        abs(a) * h == (if a == 0 {
            0
        } else {
            h
        }) * n,
{
}

/// Under a rotation that maps axes to axes the box has no slack: each extent times the
/// squared norm is the reach itself, so two opposite corners lie on the two faces of
/// each axis, and no box of any kind that holds the corners is smaller.
pub proof fn lemma_axis_rotation_is_tight(cuboid: Cuboid, t: Transform)
    requires
        cuboid.wf(),
        t.wf(),
        maps_axes_to_axes(t.rotation),
    ensures
        ({
            let q = t.rotation;
            let n = q.norm_sq();
            let aabb = cuboid.spec_aabb_3d(t.translation, q);
            &&& cuboid.corner_x(t, sign_of(q.xx()), sign_of(q.xy()), sign_of(q.xz())) == aabb.max.x
                * n
            &&& cuboid.corner_x(t, -sign_of(q.xx()), -sign_of(q.xy()), -sign_of(q.xz()))
                == aabb.min.x * n
            &&& cuboid.corner_y(t, sign_of(q.yx()), sign_of(q.yy()), sign_of(q.yz())) == aabb.max.y
                * n
            &&& cuboid.corner_y(t, -sign_of(q.yx()), -sign_of(q.yy()), -sign_of(q.yz()))
                == aabb.min.y * n
            &&& cuboid.corner_z(t, sign_of(q.zx()), sign_of(q.zy()), sign_of(q.zz())) == aabb.max.z
                * n
            &&& cuboid.corner_z(t, -sign_of(q.zx()), -sign_of(q.zy()), -sign_of(q.zz()))
                == aabb.min.z * n
        }),
{
    let q = t.rotation;
    let n = q.norm_sq();
    let h = cuboid.half_size;
    lemma_norm_sq_bounds(q);
    lemma_aabb_fields(cuboid, t);
    lemma_axis_tight(q.xx(), q.xy(), q.xz(), h, n, t.translation.x as int);
    lemma_axis_tight(q.yx(), q.yy(), q.yz(), h, n, t.translation.y as int);
    lemma_axis_tight(q.zx(), q.zy(), q.zz(), h, n, t.translation.z as int);
}

/// Along one axis whose row holds only zero and plus or minus `n`, the two extreme
/// corners lie exactly one extent from the centre.
proof fn lemma_axis_tight(a: int, b: int, c: int, half: IVec3, n: int, centre: int)
    requires
        0 < n,
        half.within_positive(HALF_SIZE_LIMIT as int),
        a == 0 || a == n || a == -n,
        b == 0 || b == n || b == -n,
        c == 0 || c == n || c == -n,
    ensures
        n * centre + (a * (sign_of(a) * half.x) + b * (sign_of(b) * half.y) + c * (sign_of(c)
            * half.z)) == (centre + ceil_div(reach(a, b, c, half), n)) * n,
        n * centre + (a * ((-sign_of(a)) * half.x) + b * ((-sign_of(b)) * half.y) + c * ((-sign_of(
            c,
        )) * half.z)) == (centre - ceil_div(reach(a, b, c, half), n)) * n,
{
    lemma_term(a, sign_of(a), half.x as int);
    lemma_term(b, sign_of(b), half.y as int);
    lemma_term(c, sign_of(c), half.z as int);
    lemma_term(a, -sign_of(a), half.x as int);
    lemma_term(b, -sign_of(b), half.y as int);
    lemma_term(c, -sign_of(c), half.z as int);
    lemma_axis_weight(a, n, half.x as int);
    lemma_axis_weight(b, n, half.y as int);
    lemma_axis_weight(c, n, half.z as int);
    let kx: int = if a == 0 {
        0
    } else {
        half.x as int
    };
    let ky: int = if b == 0 {
        0
    } else {
        half.y as int
    };
    let kz: int = if c == 0 {
        0
    } else {
        half.z as int
    };
    let k = kx + ky + kz;
    assert(k * n == kx * n + ky * n + kz * n) by (nonlinear_arith)
        requires
            k == kx + ky + kz,
    ;
    lemma_exact_extent(a, b, c, half, n, k);
    assert((centre + k) * n == n * centre + k * n && (centre - k) * n == n * centre - k * n)
        by (nonlinear_arith);
}

/// What is lost to the lattice: each extent is the reach along its axis rounded up to
/// a whole tick, so the box is wider than the least box of any kind by less than one
/// tick on each side.
pub proof fn lemma_extent_is_rounded_up(cuboid: Cuboid, q: IQuat)
    requires
        cuboid.wf(),
        q.wf(),
    ensures
        (cuboid.extent_x(q) - 1) * q.norm_sq() < reach(q.xx(), q.xy(), q.xz(), cuboid.half_size)
            <= cuboid.extent_x(q) * q.norm_sq(),
        (cuboid.extent_y(q) - 1) * q.norm_sq() < reach(q.yx(), q.yy(), q.yz(), cuboid.half_size)
            <= cuboid.extent_y(q) * q.norm_sq(),
        (cuboid.extent_z(q) - 1) * q.norm_sq() < reach(q.zx(), q.zy(), q.zz(), cuboid.half_size)
            <= cuboid.extent_z(q) * q.norm_sq(),
{
    let n = q.norm_sq();
    let h = cuboid.half_size;
    lemma_norm_sq_bounds(q);
    lemma_matrix_entries_bounded(q);
    lemma_extent_bounds(q.xx(), q.xy(), q.xz(), h, n);
    lemma_extent_bounds(q.yx(), q.yy(), q.yz(), h, n);
    lemma_extent_bounds(q.zx(), q.zy(), q.zz(), h, n);
    lemma_ceil_div(reach(q.xx(), q.xy(), q.xz(), h), n);
    lemma_ceil_div(reach(q.yx(), q.yy(), q.yz(), h), n);
    lemma_ceil_div(reach(q.zx(), q.zy(), q.zz(), h), n);
}

} // verus!
