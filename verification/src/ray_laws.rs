//! What holds of every ray cast: where a cast along an axis enters, which boxes are
//! out of range, that a cast from inside a box misses it, and that neither the length
//! of the direction nor the cut of the distance changes a result.

use vstd::prelude::*;
use crate::bounds::{Aabb3d, VOLUME_LIMIT};
use crate::ray::{axis_admits, frac_le, is_floor_distance, RayCast3d, DISTANCE_LIMIT};
use crate::vector::abs;

verus! {

/// How far `origin` lies outside the interval from `low` to `high`; zero inside it.
pub open spec fn axis_gap(origin: int, low: int, high: int) -> int {
    if origin < low {
        low - origin
    } else if origin > high {
        origin - high
    } else {
        0
    }
}

impl RayCast3d {
    /// The squared distance from the origin of the cast to the nearest point of the box.
    pub open spec fn gap_squared(self, aabb: Aabb3d) -> int {
        let gx = axis_gap(self.origin.x as int, aabb.min.x as int, aabb.max.x as int);
        let gy = axis_gap(self.origin.y as int, aabb.min.y as int, aabb.max.y as int);
        let gz = axis_gap(self.origin.z as int, aabb.min.z as int, aabb.max.z as int);
        gx * gx + gy * gy + gz * gz
    }

    /// The cast runs along the x axis towards the box, from outside it or from its
    /// face, on a line that passes through the box.
    pub open spec fn faces_along_x(self, aabb: Aabb3d) -> bool {
        &&& self.direction.y == 0 && self.direction.z == 0
        &&& aabb.min.y <= self.origin.y <= aabb.max.y
        &&& aabb.min.z <= self.origin.z <= aabb.max.z
        &&& aabb.min.x <= aabb.max.x
        &&& (self.direction.x > 0 && self.origin.x <= aabb.min.x) || (self.direction.x < 0
            && self.origin.x >= aabb.max.x)
    }

    pub open spec fn faces_along_y(self, aabb: Aabb3d) -> bool {
        &&& self.direction.x == 0 && self.direction.z == 0
        &&& aabb.min.x <= self.origin.x <= aabb.max.x
        &&& aabb.min.z <= self.origin.z <= aabb.max.z
        &&& aabb.min.y <= aabb.max.y
        &&& (self.direction.y > 0 && self.origin.y <= aabb.min.y) || (self.direction.y < 0
            && self.origin.y >= aabb.max.y)
    }

    pub open spec fn faces_along_z(self, aabb: Aabb3d) -> bool {
        &&& self.direction.x == 0 && self.direction.y == 0
        &&& aabb.min.x <= self.origin.x <= aabb.max.x
        &&& aabb.min.y <= self.origin.y <= aabb.max.y
        &&& aabb.min.z <= aabb.max.z
        &&& (self.direction.z > 0 && self.origin.z <= aabb.min.z) || (self.direction.z < 0
            && self.origin.z >= aabb.max.z)
    }
}

/// Two whole parts of the same distance: the first is at most the second.
proof fn lemma_floor_distance_le(n1: int, d1: int, n2: int, d2: int, len_sq: int, a: int, b: int)
    by (nonlinear_arith)
    requires
        0 < d1,
        0 < d2,
        n1 * d2 == n2 * d1,
        0 <= a,
        0 <= b,
        (a * a) * (d1 * d1) <= (n1 * n1) * len_sq,
        (n2 * n2) * len_sq < ((b + 1) * (b + 1)) * (d2 * d2),
    ensures
        a <= b,
{
    assert((n1 * d2) * (n1 * d2) == (n2 * d1) * (n2 * d1));
    assert((n1 * d2) * (n1 * d2) == (n1 * n1) * (d2 * d2));
    assert((n2 * d1) * (n2 * d1) == (n2 * n2) * (d1 * d1));
    assert(0 < d1 * d1 && 0 < d2 * d2);
    assert(((a * a) * (d1 * d1)) * (d2 * d2) <= ((n1 * n1) * len_sq) * (d2 * d2));
    assert(((n1 * n1) * len_sq) * (d2 * d2) == ((n1 * n1) * (d2 * d2)) * len_sq);
    assert(((n2 * n2) * (d1 * d1)) * len_sq == ((n2 * n2) * len_sq) * (d1 * d1));
    assert(((n2 * n2) * len_sq) * (d1 * d1) < (((b + 1) * (b + 1)) * (d2 * d2)) * (d1 * d1));
    assert(((a * a) * (d1 * d1)) * (d2 * d2) == (a * a) * ((d1 * d1) * (d2 * d2)));
    assert((((b + 1) * (b + 1)) * (d2 * d2)) * (d1 * d1) == ((b + 1) * (b + 1)) * ((d1 * d1) * (d2
        * d2)));
    assert(0 < (d1 * d1) * (d2 * d2));
    assert(a * a < (b + 1) * (b + 1));
    assert(a > b ==> a * a >= (b + 1) * (b + 1));
}

/// A cast enters a box at one distance only: the result of
/// [`RayCast3d::aabb_intersection_at`] is determined by the cast and the box.
pub proof fn lemma_entry_distance_unique(cast: RayCast3d, aabb: Aabb3d, a: int, b: int)
    requires
        cast.entry_distance_is(aabb, a),
        cast.entry_distance_is(aabb, b),
    ensures
        a == b,
{
    let len_sq = cast.direction.length_squared();
    let (n1, d1) = choose|n: int, d: int|
        #![trigger cast.enters_at(aabb, n, d)]
        cast.enters_at(aabb, n, d) && is_floor_distance(n, d, len_sq, a);
    let (n2, d2) = choose|n: int, d: int|
        #![trigger cast.enters_at(aabb, n, d)]
        cast.enters_at(aabb, n, d) && is_floor_distance(n, d, len_sq, b);
    assert(cast.meets(aabb, n1, d1) && cast.meets(aabb, n2, d2));
    assert(frac_le(n1, d1, n2, d2) && frac_le(n2, d2, n1, d1));
    assert(n1 * d2 == n2 * d1);
    lemma_floor_distance_le(n1, d1, n2, d2, len_sq, a, b);
    lemma_floor_distance_le(n2, d2, n1, d1, len_sq, b, a);
}

/// Along one axis, a point between the faces is at least the gap away from the origin.
proof fn lemma_axis_gap(origin: int, direction: int, low: int, high: int, n: int, d: int)
    by (nonlinear_arith)
    requires
        0 < d,
        low * d <= origin * d + n * direction,
        origin * d + n * direction <= high * d,
    ensures
        (axis_gap(origin, low, high) * axis_gap(origin, low, high)) * (d * d) <= (n * n) * (
        direction * direction),
{
    let g = axis_gap(origin, low, high);
    assert((n * direction) * (n * direction) == (n * n) * (direction * direction));
    assert((g * d) * (g * d) == (g * g) * (d * d));
    assert(0 <= (n * direction) * (n * direction));
    if origin < low {
        assert((low - origin) * d == low * d - origin * d);
        assert(0 <= g * d && g * d <= n * direction);
        assert((g * d) * (g * d) <= (n * direction) * (n * direction));
    } else if origin > high {
        assert((origin - high) * d == origin * d - high * d);
        assert(0 <= g * d && n * direction <= -(g * d));
        assert((g * d) * (g * d) <= (n * direction) * (n * direction));
    } else {
        assert(g == 0);
        assert((g * d) * (g * d) == 0);
    }
}

/// Sums of three products with a common factor.
proof fn lemma_sum_of_products(a: int, b: int, c: int, k: int)
    by (nonlinear_arith)
    ensures
        (a + b + c) * k == a * k + b * k + c * k,
        k * (a + b + c) == k * a + k * b + k * c,
{
}

/// A box whose nearest point is farther from the origin of the cast than the cast
/// may travel is not hit, whatever the direction.
pub proof fn lemma_out_of_range_misses(cast: RayCast3d, aabb: Aabb3d)
    requires
        cast.gap_squared(aabb) > cast.max * cast.max,
    ensures
        !cast.intersects(aabb),
{
    assert forall|n: int, d: int| cast.enters_at(aabb, n, d) implies false by {
        let gx = axis_gap(cast.origin.x as int, aabb.min.x as int, aabb.max.x as int);
        let gy = axis_gap(cast.origin.y as int, aabb.min.y as int, aabb.max.y as int);
        let gz = axis_gap(cast.origin.z as int, aabb.min.z as int, aabb.max.z as int);
        let (dx, dy, dz) = (
            cast.direction.x as int,
            cast.direction.y as int,
            cast.direction.z as int,
        );
        lemma_axis_gap(cast.origin.x as int, dx, aabb.min.x as int, aabb.max.x as int, n, d);
        lemma_axis_gap(cast.origin.y as int, dy, aabb.min.y as int, aabb.max.y as int, n, d);
        lemma_axis_gap(cast.origin.z as int, dz, aabb.min.z as int, aabb.max.z as int, n, d);
        lemma_sum_of_products(gx * gx, gy * gy, gz * gz, d * d);
        lemma_sum_of_products(dx * dx, dy * dy, dz * dz, n * n);
        assert(cast.gap_squared(aabb) * (d * d) <= (n * n) * cast.direction.length_squared());
        assert((cast.max * cast.max) * (d * d) < cast.gap_squared(aabb) * (d * d))
            by (nonlinear_arith)
            requires
                cast.gap_squared(aabb) > cast.max * cast.max,
                0 < d,
        ;
    }
}

/// Along one axis, a point strictly between the faces stays between them one `k`-th
/// of the direction back, where `k` is at least as large as the direction.
proof fn lemma_step_back(origin: int, direction: int, low: int, high: int, k: int)
    by (nonlinear_arith)
    requires
        low < origin < high,
        0 < k,
        -k <= direction <= k,
    ensures
        axis_admits(origin, direction, low, high, -1, k),
{
    assert((origin - low) * k >= k);
    assert((high - origin) * k >= k);
    assert((origin - low) * k == origin * k - low * k);
    assert((high - origin) * k == high * k - origin * k);
    assert((-1) * direction == -direction);
}

/// A cast that starts strictly inside a box does not hit it, whatever its direction
/// and however far it may travel: the line through it entered the box behind the
/// origin, so the near bound is negative.
pub proof fn lemma_origin_inside_misses(cast: RayCast3d, aabb: Aabb3d)
    requires
        aabb.min.x < cast.origin.x < aabb.max.x,
        aabb.min.y < cast.origin.y < aabb.max.y,
        aabb.min.z < cast.origin.z < aabb.max.z,
    ensures
        !cast.intersects(aabb),
{
    let (dx, dy, dz) = (cast.direction.x as int, cast.direction.y as int, cast.direction.z as int);
    let k = abs(dx) + abs(dy) + abs(dz) + 1;
    lemma_step_back(cast.origin.x as int, dx, aabb.min.x as int, aabb.max.x as int, k);
    lemma_step_back(cast.origin.y as int, dy, aabb.min.y as int, aabb.max.y as int, k);
    lemma_step_back(cast.origin.z as int, dz, aabb.min.z as int, aabb.max.z as int, k);
    assert(cast.meets(aabb, -1, k));
    assert forall|n: int, d: int| cast.enters_at(aabb, n, d) implies false by {
        assert(frac_le(n, d, -1, k));
        assert(false) by (nonlinear_arith)
            requires
                n * k <= (-1) * d,
                0 < d,
                0 < k,
                0 <= n,
        ;
    }
}

/// The face through which a ray that moves along an axis enters the interval from
/// `low` to `high`.
pub open spec fn entry_face(direction: int, low: int, high: int) -> int {
    if direction > 0 {
        low
    } else {
        high
    }
}

/// The point at parameter `n / d` lies in the plane of the face through which a ray
/// with this origin and direction enters along the axis.
pub open spec fn on_entry_face(
    origin: int,
    direction: int,
    low: int,
    high: int,
    n: int,
    d: int,
) -> bool {
    direction != 0 && origin * d + n * direction == entry_face(direction, low, high) * d
}

/// Along one axis, no point between the faces comes before the entry face.
proof fn lemma_axis_entry(
    origin: int,
    direction: int,
    low: int,
    high: int,
    n: int,
    d: int,
    n2: int,
    d2: int,
)
    by (nonlinear_arith)
    requires
        0 < d,
        0 < d2,
        direction != 0,
        origin * d + n * direction == entry_face(direction, low, high) * d,
        low * d2 <= origin * d2 + n2 * direction,
        origin * d2 + n2 * direction <= high * d2,
    ensures
        n * d2 <= n2 * d,
{
    let face = entry_face(direction, low, high);
    assert(n * direction == (face - origin) * d);
    assert((face - origin) * d2 == face * d2 - origin * d2);
    assert((n * direction) * d2 == ((face - origin) * d2) * d);
    assert((n * direction) * d2 == direction * (n * d2));
    assert((n2 * direction) * d == direction * (n2 * d));
    if direction > 0 {
        assert((face - origin) * d2 <= n2 * direction);
        assert(((face - origin) * d2) * d <= (n2 * direction) * d);
        assert(direction * (n * d2) <= direction * (n2 * d));
    } else {
        assert(n2 * direction <= (face - origin) * d2);
        assert((n2 * direction) * d <= ((face - origin) * d2) * d);
        assert(direction * (n2 * d) <= direction * (n * d2));
    }
}

/// Where the line through a cast lies in the box and in the plane of an entry face at
/// once, it enters the box: that parameter is the near bound.
pub proof fn lemma_entry_face_is_near_bound(cast: RayCast3d, aabb: Aabb3d, n: int, d: int)
    requires
        cast.meets(aabb, n, d),
        on_entry_face(
            cast.origin.x as int,
            cast.direction.x as int,
            aabb.min.x as int,
            aabb.max.x as int,
            n,
            d,
        ) || on_entry_face(
            cast.origin.y as int,
            cast.direction.y as int,
            aabb.min.y as int,
            aabb.max.y as int,
            n,
            d,
        ) || on_entry_face(
            cast.origin.z as int,
            cast.direction.z as int,
            aabb.min.z as int,
            aabb.max.z as int,
            n,
            d,
        ),
    ensures
        cast.first_meets(aabb, n, d),
{
    assert forall|n2: int, d2: int| #[trigger] cast.meets(aabb, n2, d2) implies frac_le(
        n,
        d,
        n2,
        d2,
    ) by {
        if on_entry_face(
            cast.origin.x as int,
            cast.direction.x as int,
            aabb.min.x as int,
            aabb.max.x as int,
            n,
            d,
        ) {
            lemma_axis_entry(
                cast.origin.x as int,
                cast.direction.x as int,
                aabb.min.x as int,
                aabb.max.x as int,
                n,
                d,
                n2,
                d2,
            );
        } else if on_entry_face(
            cast.origin.y as int,
            cast.direction.y as int,
            aabb.min.y as int,
            aabb.max.y as int,
            n,
            d,
        ) {
            lemma_axis_entry(
                cast.origin.y as int,
                cast.direction.y as int,
                aabb.min.y as int,
                aabb.max.y as int,
                n,
                d,
                n2,
                d2,
            );
        } else {
            lemma_axis_entry(
                cast.origin.z as int,
                cast.direction.z as int,
                aabb.min.z as int,
                aabb.max.z as int,
                n,
                d,
                n2,
                d2,
            );
        }
    }
}

/// One axis of a cast that runs along a coordinate axis towards the interval from
/// `low` to `high`: it enters at parameter `gap / |direction|`, and nowhere before.
proof fn lemma_facing_axis(origin: int, direction: int, low: int, high: int, n: int, d: int)
    by (nonlinear_arith)
    requires
        low <= high,
        (direction > 0 && origin <= low) || (direction < 0 && origin >= high),
        0 < d,
    ensures
        axis_admits(origin, direction, low, high, axis_gap(origin, low, high), abs(direction)),
        axis_admits(origin, direction, low, high, n, d) ==> axis_gap(origin, low, high) * d <= n
            * abs(direction),
{
    let g = axis_gap(origin, low, high);
    let den = abs(direction);
    assert(g * direction == g * den || g * direction == -(g * den));
    if direction > 0 {
        assert(origin * den + g * direction == low * den);
        assert(low * den <= high * den);
        assert((low - origin) * d == low * d - origin * d);
    } else {
        assert(g * direction == -(g * den));
        assert(origin * den - (origin - high) * den == high * den);
        assert(low * den <= high * den);
        assert((origin - high) * d == origin * d - high * d);
        assert(n * den == -(n * direction));
    }
}

/// An axis along which the cast does not move admits every parameter while the origin
/// lies between the faces.
proof fn lemma_still_axis_admits(origin: int, low: int, high: int, n: int, d: int)
    by (nonlinear_arith)
    requires
        low <= origin <= high,
        0 < d,
    ensures
        axis_admits(origin, 0, low, high, n, d),
{
    assert(n * 0 == 0);
    assert(low * d <= origin * d);
    assert(origin * d <= high * d);
}

/// The distance check and the whole part for a cast along one axis.
proof fn lemma_facing_distance(gap: int, den: int, max: int)
    by (nonlinear_arith)
    requires
        0 <= gap <= max,
        0 < den,
    ensures
        (gap * gap) * (den * den) <= (max * max) * (den * den),
        (gap * gap) * (den * den) < ((gap + 1) * (gap + 1)) * (den * den),
{
    assert(gap * gap <= max * max);
    assert(gap * gap < (gap + 1) * (gap + 1));
    assert(0 < den * den);
}

/// A cast along the x axis that faces the box from no farther than it may travel
/// enters the box at exactly the distance between its origin and the facing side; from
/// the face itself, that is at distance zero.
pub proof fn lemma_facing_along_x(cast: RayCast3d, aabb: Aabb3d)
    requires
        cast.faces_along_x(aabb),
        axis_gap(cast.origin.x as int, aabb.min.x as int, aabb.max.x as int) <= cast.max,
    ensures
        cast.intersects(aabb),
        cast.entry_distance_is(
            aabb,
            axis_gap(cast.origin.x as int, aabb.min.x as int, aabb.max.x as int),
        ),
{
    let (o, dir) = (cast.origin, cast.direction);
    let gap = axis_gap(o.x as int, aabb.min.x as int, aabb.max.x as int);
    let den = abs(dir.x as int);
    let len_sq = dir.length_squared();
    assert(len_sq == den * den) by (nonlinear_arith)
        requires
            len_sq == dir.x * dir.x + dir.y * dir.y + dir.z * dir.z,
            dir.y == 0,
            dir.z == 0,
            den == dir.x || den == -dir.x,
    ;
    lemma_facing_axis(o.x as int, dir.x as int, aabb.min.x as int, aabb.max.x as int, 0, 1);
    lemma_still_axis_admits(o.y as int, aabb.min.y as int, aabb.max.y as int, gap, den);
    lemma_still_axis_admits(o.z as int, aabb.min.z as int, aabb.max.z as int, gap, den);
    lemma_facing_distance(gap, den, cast.max as int);
    assert(cast.meets(aabb, gap, den));
    assert(cast.in_range(gap, den));
    assert(cast.first_meets(aabb, gap, den)) by {
        assert forall|n2: int, d2: int| #[trigger]
            cast.meets(aabb, n2, d2) implies frac_le(gap, den, n2, d2) by {
            lemma_facing_axis(
                o.x as int,
                dir.x as int,
                aabb.min.x as int,
                aabb.max.x as int,
                n2,
                d2,
            );
        }
    }
    assert(cast.enters_at(aabb, gap, den));
    assert(is_floor_distance(gap, den, len_sq, gap));
}

/// The same along the y axis.
pub proof fn lemma_facing_along_y(cast: RayCast3d, aabb: Aabb3d)
    requires
        cast.faces_along_y(aabb),
        axis_gap(cast.origin.y as int, aabb.min.y as int, aabb.max.y as int) <= cast.max,
    ensures
        cast.intersects(aabb),
        cast.entry_distance_is(
            aabb,
            axis_gap(cast.origin.y as int, aabb.min.y as int, aabb.max.y as int),
        ),
{
    let (o, dir) = (cast.origin, cast.direction);
    let gap = axis_gap(o.y as int, aabb.min.y as int, aabb.max.y as int);
    let den = abs(dir.y as int);
    let len_sq = dir.length_squared();
    assert(len_sq == den * den) by (nonlinear_arith)
        requires
            len_sq == dir.x * dir.x + dir.y * dir.y + dir.z * dir.z,
            dir.x == 0,
            dir.z == 0,
            den == dir.y || den == -dir.y,
    ;
    lemma_facing_axis(o.y as int, dir.y as int, aabb.min.y as int, aabb.max.y as int, 0, 1);
    lemma_still_axis_admits(o.x as int, aabb.min.x as int, aabb.max.x as int, gap, den);
    lemma_still_axis_admits(o.z as int, aabb.min.z as int, aabb.max.z as int, gap, den);
    lemma_facing_distance(gap, den, cast.max as int);
    assert(cast.meets(aabb, gap, den));
    assert(cast.in_range(gap, den));
    assert(cast.first_meets(aabb, gap, den)) by {
        assert forall|n2: int, d2: int| #[trigger]
            cast.meets(aabb, n2, d2) implies frac_le(gap, den, n2, d2) by {
            lemma_facing_axis(
                o.y as int,
                dir.y as int,
                aabb.min.y as int,
                aabb.max.y as int,
                n2,
                d2,
            );
        }
    }
    assert(cast.enters_at(aabb, gap, den));
    assert(is_floor_distance(gap, den, len_sq, gap));
}

/// The same along the z axis.
pub proof fn lemma_facing_along_z(cast: RayCast3d, aabb: Aabb3d)
    requires
        cast.faces_along_z(aabb),
        axis_gap(cast.origin.z as int, aabb.min.z as int, aabb.max.z as int) <= cast.max,
    ensures
        cast.intersects(aabb),
        cast.entry_distance_is(
            aabb,
            axis_gap(cast.origin.z as int, aabb.min.z as int, aabb.max.z as int),
        ),
{
    let (o, dir) = (cast.origin, cast.direction);
    let gap = axis_gap(o.z as int, aabb.min.z as int, aabb.max.z as int);
    let den = abs(dir.z as int);
    let len_sq = dir.length_squared();
    assert(len_sq == den * den) by (nonlinear_arith)
        requires
            len_sq == dir.x * dir.x + dir.y * dir.y + dir.z * dir.z,
            dir.x == 0,
            dir.y == 0,
            den == dir.z || den == -dir.z,
    ;
    lemma_facing_axis(o.z as int, dir.z as int, aabb.min.z as int, aabb.max.z as int, 0, 1);
    lemma_still_axis_admits(o.x as int, aabb.min.x as int, aabb.max.x as int, gap, den);
    lemma_still_axis_admits(o.y as int, aabb.min.y as int, aabb.max.y as int, gap, den);
    lemma_facing_distance(gap, den, cast.max as int);
    assert(cast.meets(aabb, gap, den));
    assert(cast.in_range(gap, den));
    assert(cast.first_meets(aabb, gap, den)) by {
        assert forall|n2: int, d2: int| #[trigger]
            cast.meets(aabb, n2, d2) implies frac_le(gap, den, n2, d2) by {
            lemma_facing_axis(
                o.z as int,
                dir.z as int,
                aabb.min.z as int,
                aabb.max.z as int,
                n2,
                d2,
            );
        }
    }
    assert(cast.enters_at(aabb, gap, den));
    assert(is_floor_distance(gap, den, len_sq, gap));
}

/// Along one axis, a point between the faces of a valid box is at most twice
/// [`VOLUME_LIMIT`] away from a valid origin.
proof fn lemma_axis_span(origin: int, direction: int, low: int, high: int, n: int, d: int)
    by (nonlinear_arith)
    requires
        0 < d,
        -16_777_216 <= origin <= 16_777_216,
        -16_777_216 <= low <= high <= 16_777_216,
        low * d <= origin * d + n * direction,
        origin * d + n * direction <= high * d,
    ensures
        (n * n) * (direction * direction) <= 1125899906842624 * (d * d),
{
    let m = n * direction;
    assert((low - origin) * d == low * d - origin * d);
    assert((high - origin) * d == high * d - origin * d);
    assert((low - origin) * d <= m <= (high - origin) * d);
    assert(-33_554_432 * d <= (low - origin) * d);
    assert((high - origin) * d <= 33_554_432 * d);
    assert(-(33_554_432 * d) <= m <= 33_554_432 * d);
    assert(m * m <= (33_554_432 * d) * (33_554_432 * d));
    assert((33_554_432 * d) * (33_554_432 * d) == 1125899906842624 * (d * d));
    assert(m * m == (n * n) * (direction * direction));
}

/// Cutting the distance of a cast to [`DISTANCE_LIMIT`] loses no hit: whatever a
/// longer cast from a valid origin hits in a valid box, the cut cast hits too, at the
/// same place.
pub proof fn lemma_distance_limit_loses_nothing(cast: RayCast3d, aabb: Aabb3d, longer: RayCast3d)
    requires
        aabb.wf(),
        cast.origin.within(VOLUME_LIMIT as int),
        cast.max == DISTANCE_LIMIT,
        longer.origin == cast.origin,
        longer.direction == cast.direction,
        longer.max >= DISTANCE_LIMIT,
    ensures
        cast.intersects(aabb) == longer.intersects(aabb),
        forall|n: int, d: int| cast.enters_at(aabb, n, d) == longer.enters_at(aabb, n, d),
{
    assert forall|n: int, d: int| cast.enters_at(aabb, n, d) == longer.enters_at(aabb, n, d) by {
        assert(cast.meets(aabb, n, d) == longer.meets(aabb, n, d));
        if cast.first_meets(aabb, n, d) {
            assert forall|n2: int, d2: int| #[trigger]
                longer.meets(aabb, n2, d2) implies frac_le(n, d, n2, d2) by {
                assert(cast.meets(aabb, n2, d2));
            }
        }
        if longer.first_meets(aabb, n, d) {
            assert forall|n2: int, d2: int| #[trigger]
                cast.meets(aabb, n2, d2) implies frac_le(n, d, n2, d2) by {
                assert(longer.meets(aabb, n2, d2));
            }
        }
        assert(cast.first_meets(aabb, n, d) == longer.first_meets(aabb, n, d));
        if d > 0 && cast.inside(aabb, n, d) {
            let (dx, dy, dz) = (
                cast.direction.x as int,
                cast.direction.y as int,
                cast.direction.z as int,
            );
            lemma_axis_span(cast.origin.x as int, dx, aabb.min.x as int, aabb.max.x as int, n, d);
            lemma_axis_span(cast.origin.y as int, dy, aabb.min.y as int, aabb.max.y as int, n, d);
            lemma_axis_span(cast.origin.z as int, dz, aabb.min.z as int, aabb.max.z as int, n, d);
            lemma_sum_of_products(dx * dx, dy * dy, dz * dz, n * n);
            assert((n * n) * cast.direction.length_squared() <= (3 * 1125899906842624) * (d * d))
                by (nonlinear_arith)
                requires
                    (n * n) * cast.direction.length_squared() == (n * n) * (dx * dx) + (n * n) * (dy
                        * dy) + (n * n) * (dz * dz),
                    (n * n) * (dx * dx) <= 1125899906842624 * (d * d),
                    (n * n) * (dy * dy) <= 1125899906842624 * (d * d),
                    (n * n) * (dz * dz) <= 1125899906842624 * (d * d),
            ;
            assert((3 * 1125899906842624) * (d * d) <= (cast.max * cast.max) * (d * d)
                && (cast.max * cast.max) * (d * d) <= (longer.max * longer.max) * (d * d))
                by (nonlinear_arith)
                requires
                    cast.max == 67_108_864,
                    longer.max >= cast.max,
                    0 < d,
            ;
            assert(cast.in_range(n, d) && longer.in_range(n, d));
        }
    }
    if cast.intersects(aabb) {
        let (n, d) = choose|n: int, d: int| cast.enters_at(aabb, n, d);
        assert(longer.enters_at(aabb, n, d));
    }
    if longer.intersects(aabb) {
        let (n, d) = choose|n: int, d: int| longer.enters_at(aabb, n, d);
        assert(cast.enters_at(aabb, n, d));
    }
}

/// Along one axis, stretching the direction by `k` is the same as stretching the
/// parameter by `k`, or as shrinking it by `k` with the direction left alone.
proof fn lemma_axis_scale(origin: int, direction: int, low: int, high: int, n: int, d: int, k: int)
    by (nonlinear_arith)
    requires
        0 < k,
    ensures
        axis_admits(origin, k * direction, low, high, n, d) == axis_admits(
            origin,
            direction,
            low,
            high,
            n * k,
            d,
        ),
        axis_admits(origin, direction, low, high, n, d) == axis_admits(
            origin,
            k * direction,
            low,
            high,
            n,
            d * k,
        ),
{
    assert(n * (k * direction) == (n * k) * direction);
    assert(low * (d * k) == k * (low * d));
    assert(high * (d * k) == k * (high * d));
    assert(origin * (d * k) + n * (k * direction) == k * (origin * d + n * direction));
    let inner = origin * d + n * direction;
    assert(low * d <= inner <==> k * (low * d) <= k * inner);
    assert(inner <= high * d <==> k * inner <= k * (high * d));
}

/// The square of a component stretched by `k`.
proof fn lemma_square_scale(x: int, k: int)
    by (nonlinear_arith)
    ensures
        (k * x) * (k * x) == (k * k) * (x * x),
{
}

/// The squared length of a direction stretched by `k`.
proof fn lemma_length_scale(x: int, y: int, z: int, k: int)
    ensures
        (k * x) * (k * x) + (k * y) * (k * y) + (k * z) * (k * z) == (k * k) * (x * x + y * y + z
            * z),
{
    lemma_square_scale(x, k);
    lemma_square_scale(y, k);
    lemma_square_scale(z, k);
    lemma_sum_of_products(x * x, y * y, z * z, k * k);
}

/// Squares and products with a positive factor `k` moved from one side to the other.
proof fn lemma_range_scale(n: int, d: int, k: int, len_sq: int, bound: int)
    by (nonlinear_arith)
    requires
        0 < k,
    ensures
        (n * n) * ((k * k) * len_sq) == ((n * k) * (n * k)) * len_sq,
        (n * n) * len_sq <= bound * (d * d) <==> (n * n) * ((k * k) * len_sq) <= bound * ((d * k)
            * (d * k)),
        (n * n) * len_sq < bound * (d * d) <==> (n * n) * ((k * k) * len_sq) < bound * ((d * k) * (
        d * k)),
        bound * (d * d) <= (n * n) * len_sq <==> bound * ((d * k) * (d * k)) <= (n * n) * ((k * k)
            * len_sq),
        n >= 0 <==> n * k >= 0,
        d > 0 <==> d * k > 0,
{
    let kk = k * k;
    assert(0 < kk);
    assert((n * n) * (kk * len_sq) == kk * ((n * n) * len_sq));
    assert(bound * ((d * k) * (d * k)) == kk * (bound * (d * d)));
    let left = (n * n) * len_sq;
    let right = bound * (d * d);
    assert(left <= right <==> kk * left <= kk * right);
    assert(left < right <==> kk * left < kk * right);
    assert(((n * k) * (n * k)) * len_sq == kk * left);
}

/// Fractions with a positive factor `k` moved between numerator and denominator.
proof fn lemma_frac_scale(n: int, d: int, n2: int, d2: int, k: int)
    by (nonlinear_arith)
    requires
        0 < k,
    ensures
        frac_le(n, d, n2, d2 * k) == frac_le(n * k, d, n2, d2),
        frac_le(n, d, n2 * k, d2) == frac_le(n, d * k, n2, d2),
{
    assert(n * (d2 * k) == (n * k) * d2);
    assert((n2 * k) * d == n2 * (d * k));
}

/// The length of the direction does not matter: a cast whose direction is stretched
/// by a positive factor hits the same boxes, at the same distances.
pub proof fn lemma_direction_length_is_immaterial(
    cast: RayCast3d,
    stretched: RayCast3d,
    k: int,
    aabb: Aabb3d,
)
    requires
        0 < k,
        stretched.origin == cast.origin,
        stretched.max == cast.max,
        stretched.direction.x == k * cast.direction.x,
        stretched.direction.y == k * cast.direction.y,
        stretched.direction.z == k * cast.direction.z,
    ensures
        stretched.intersects(aabb) == cast.intersects(aabb),
        forall|distance: int|
            stretched.entry_distance_is(aabb, distance) == cast.entry_distance_is(aabb, distance),
{
    let len_sq = cast.direction.length_squared();
    let stretched_sq = stretched.direction.length_squared();
    let bound = cast.max * cast.max;
    lemma_length_scale(
        cast.direction.x as int,
        cast.direction.y as int,
        cast.direction.z as int,
        k,
    );
    assert(stretched_sq == (k * k) * len_sq);
    // Where the stretched line is at `n / d`, the other is at `n * k / d`.
    assert forall|n: int, d: int| stretched.meets(aabb, n, d) == cast.meets(aabb, n * k, d) by {
        lemma_axis_scale(
            cast.origin.x as int,
            cast.direction.x as int,
            aabb.min.x as int,
            aabb.max.x as int,
            n,
            d,
            k,
        );
        lemma_axis_scale(
            cast.origin.y as int,
            cast.direction.y as int,
            aabb.min.y as int,
            aabb.max.y as int,
            n,
            d,
            k,
        );
        lemma_axis_scale(
            cast.origin.z as int,
            cast.direction.z as int,
            aabb.min.z as int,
            aabb.max.z as int,
            n,
            d,
            k,
        );
    }
    // Where the line is at `n / d`, the stretched one is at `n / (d * k)`.
    assert forall|n: int, d: int| cast.meets(aabb, n, d) == stretched.meets(aabb, n, d * k) by {
        lemma_axis_scale(
            cast.origin.x as int,
            cast.direction.x as int,
            aabb.min.x as int,
            aabb.max.x as int,
            n,
            d,
            k,
        );
        lemma_axis_scale(
            cast.origin.y as int,
            cast.direction.y as int,
            aabb.min.y as int,
            aabb.max.y as int,
            n,
            d,
            k,
        );
        lemma_axis_scale(
            cast.origin.z as int,
            cast.direction.z as int,
            aabb.min.z as int,
            aabb.max.z as int,
            n,
            d,
            k,
        );
        lemma_range_scale(n, d, k, len_sq, bound);
    }
    assert forall|n: int, d: int| stretched.enters_at(aabb, n, d) implies cast.enters_at(
        aabb,
        n * k,
        d,
    ) by {
        assert(cast.meets(aabb, n * k, d));
        assert forall|n2: int, d2: int| #[trigger]
            cast.meets(aabb, n2, d2) implies frac_le(n * k, d, n2, d2) by {
            assert(stretched.meets(aabb, n2, d2 * k));
            lemma_frac_scale(n, d, n2, d2, k);
        }
        lemma_range_scale(n, d, k, len_sq, bound);
    }
    assert forall|n: int, d: int| cast.enters_at(aabb, n, d) implies stretched.enters_at(
        aabb,
        n,
        d * k,
    ) by {
        assert(stretched.meets(aabb, n, d * k));
        assert forall|n2: int, d2: int| #[trigger]
            stretched.meets(aabb, n2, d2) implies frac_le(n, d * k, n2, d2) by {
            assert(cast.meets(aabb, n2 * k, d2));
            lemma_frac_scale(n, d, n2, d2, k);
        }
        lemma_range_scale(n, d, k, len_sq, bound);
    }
    if stretched.intersects(aabb) {
        let (n, d) = choose|n: int, d: int| stretched.enters_at(aabb, n, d);
        assert(cast.enters_at(aabb, n * k, d));
    }
    if cast.intersects(aabb) {
        let (n, d) = choose|n: int, d: int| cast.enters_at(aabb, n, d);
        assert(stretched.enters_at(aabb, n, d * k));
    }
    assert forall|distance: int|
        stretched.entry_distance_is(aabb, distance) == cast.entry_distance_is(
            aabb,
            distance,
        ) by {
        if stretched.entry_distance_is(aabb, distance) {
            let (n, d) = choose|n: int, d: int|
                #![trigger stretched.enters_at(aabb, n, d)]
                stretched.enters_at(aabb, n, d) && is_floor_distance(n, d, stretched_sq, distance);
            lemma_range_scale(n, d, k, len_sq, distance * distance);
            lemma_range_scale(n, d, k, len_sq, (distance + 1) * (distance + 1));
            assert(cast.enters_at(aabb, n * k, d));
            assert(is_floor_distance(n * k, d, len_sq, distance));
        }
        if cast.entry_distance_is(aabb, distance) {
            let (n, d) = choose|n: int, d: int|
                #![trigger cast.enters_at(aabb, n, d)]
                cast.enters_at(aabb, n, d) && is_floor_distance(n, d, len_sq, distance);
            lemma_range_scale(n, d, k, len_sq, distance * distance);
            lemma_range_scale(n, d, k, len_sq, (distance + 1) * (distance + 1));
            assert(stretched.enters_at(aabb, n, d * k));
            assert(is_floor_distance(n, d * k, stretched_sq, distance));
        }
    }
}

} // verus!
