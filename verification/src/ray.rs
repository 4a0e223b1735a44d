//! Rays and the slab test of a ray against a bounding box.
//!
//! A ray leaves `origin` along `direction`, which need not have unit length. The point
//! at parameter `n / d` is `origin + (n / d) * direction`; it lies at distance
//! `(n / d) * |direction|` from the origin. All comparisons are made on cross products
//! and squares, so that a hit is decided without rounding; the distance that is
//! reported is rounded down to the tick.

use vstd::prelude::*;
use crate::bounds::{Aabb3d, VOLUME_LIMIT};
use crate::vector::{IVec3, lemma_product_bound};

verus! {

/// The largest magnitude of a direction component.
pub const DIRECTION_LIMIT: i64 = 137_438_953_472;

/// The largest distance a ray cast can be limited to, in ticks. No two points that a
/// bounding box and a ray origin can hold are farther apart.
pub const DISTANCE_LIMIT: i64 = 67_108_864;

/// A half-line in space.
#[derive(Clone, Copy, Debug, PartialEq, Eq, Structural)]
pub struct Ray3d {
    pub origin: IVec3,
    pub direction: IVec3,
}

/// A ray together with the farthest distance at which it still picks.
#[derive(Clone, Copy, Debug, PartialEq, Eq, Structural)]
pub struct RayCast3d {
    pub origin: IVec3,
    pub direction: IVec3,
    pub max: i64,
}

impl Ray3d {
    pub open spec fn wf(self) -> bool {
        &&& self.origin.within(VOLUME_LIMIT as int)
        &&& self.direction.within(DIRECTION_LIMIT as int)
        &&& !self.direction.is_zero()
    }

    pub fn is_valid(&self) -> (valid: bool)
        ensures
            valid == self.wf(),
    {
        self.origin.is_within(VOLUME_LIMIT) && self.direction.is_within(DIRECTION_LIMIT) && !(
        self.direction.x == 0 && self.direction.y == 0 && self.direction.z == 0)
    }

    /// The ray from `origin` along `direction`, unless a component is out of range or
    /// the direction is zero.
    pub fn new(origin: IVec3, direction: IVec3) -> (ray: Option<Ray3d>)
        ensures
            ray.is_some() == (Ray3d { origin, direction }).wf(),
            ray.is_some() ==> ray.unwrap() == (Ray3d { origin, direction }),
    {
        let candidate = Ray3d { origin, direction };
        if candidate.is_valid() {
            Some(candidate)
        } else {
            None
        }
    }
}

/// `a / b <= c / d`, for positive `b` and `d`.
pub open spec fn frac_le(a: int, b: int, c: int, d: int) -> bool {
    a * d <= c * b
}

/// Along one axis, the point at parameter `n / d` lies between `low` and `high`.
pub open spec fn axis_admits(origin: int, direction: int, low: int, high: int, n: int, d: int) -> bool {
    low * d <= origin * d + n * direction <= high * d
}

impl RayCast3d {
    pub open spec fn wf(self) -> bool {
        &&& self.origin.within(VOLUME_LIMIT as int)
        &&& self.direction.within(DIRECTION_LIMIT as int)
        &&& !self.direction.is_zero()
        &&& 0 <= self.max <= DISTANCE_LIMIT
    }

    /// The point at parameter `n / d` is no farther than `max` from the origin.
    pub open spec fn in_range(self, n: int, d: int) -> bool {
        &&& 0 <= self.max
        &&& (n * n) * self.direction.length_squared() <= (self.max * self.max) * (d * d)
    }

    /// The point at parameter `n / d` lies in the box.
    pub open spec fn inside(self, aabb: Aabb3d, n: int, d: int) -> bool {
        &&& axis_admits(
            self.origin.x as int,
            self.direction.x as int,
            aabb.min.x as int,
            aabb.max.x as int,
            n,
            d,
        )
        &&& axis_admits(
            self.origin.y as int,
            self.direction.y as int,
            aabb.min.y as int,
            aabb.max.y as int,
            n,
            d,
        )
        &&& axis_admits(
            self.origin.z as int,
            self.direction.z as int,
            aabb.min.z as int,
            aabb.max.z as int,
            n,
            d,
        )
    }

    /// The line through the cast meets the box at parameter `n / d`, which may be
    /// negative: the point there lies in the box.
    pub open spec fn meets(self, aabb: Aabb3d, n: int, d: int) -> bool {
        &&& d > 0
        &&& self.inside(aabb, n, d)
    }

    /// `n / d` is the near bound: the least parameter, of either sign, at which the
    /// line through the cast meets the box.
    pub open spec fn first_meets(self, aabb: Aabb3d, n: int, d: int) -> bool {
        &&& self.meets(aabb, n, d)
        &&& forall|n2: int, d2: int| #[trigger] self.meets(aabb, n2, d2) ==> frac_le(n, d, n2, d2)
    }

    /// The cast enters the box at parameter `n / d`: that is the near bound of the line
    /// through the cast, it is not negative, and the point there is within range.
    pub open spec fn enters_at(self, aabb: Aabb3d, n: int, d: int) -> bool {
        &&& self.first_meets(aabb, n, d)
        &&& n >= 0
        &&& self.in_range(n, d)
    }

    /// The cast hits the box: the line through it meets the box, and the near bound
    /// lies between zero and `max`. A cast that starts strictly inside a box does not
    /// hit it, since its near bound lies behind the origin.
    pub open spec fn intersects(self, aabb: Aabb3d) -> bool {
        exists|n: int, d: int| self.enters_at(aabb, n, d)
    }

    pub fn is_valid(&self) -> (valid: bool)
        ensures
            valid == self.wf(),
    {
        self.origin.is_within(VOLUME_LIMIT) && self.direction.is_within(DIRECTION_LIMIT) && !(
        self.direction.x == 0 && self.direction.y == 0 && self.direction.z == 0) && 0 <= self.max
            && self.max <= DISTANCE_LIMIT
    }

    /// The cast from `origin` along `direction` up to distance `max`, unless a value is
    /// out of range or the direction is zero.
    pub fn new(origin: IVec3, direction: IVec3, max: i64) -> (cast: Option<RayCast3d>)
        ensures
            cast.is_some() == (RayCast3d { origin, direction, max }).wf(),
            cast.is_some() ==> cast.unwrap() == (RayCast3d { origin, direction, max }),
    {
        let candidate = RayCast3d { origin, direction, max };
        if candidate.is_valid() {
            Some(candidate)
        } else {
            None
        }
    }

    /// The cast along `ray` up to distance `max`, which is cut to [`DISTANCE_LIMIT`]
    /// where it exceeds it. There is none where the ray is not valid.
    pub fn from_ray(ray: Ray3d, max: u32) -> (cast: Option<RayCast3d>)
        ensures
            cast.is_some() == ray.wf(),
            cast.is_some() ==> cast.unwrap() == Self::spec_from_ray(ray, max) && cast.unwrap().wf(),
    {
        let cut: i64 = if max as i64 > DISTANCE_LIMIT {
            DISTANCE_LIMIT
        } else {
            max as i64
        };
        Self::new(ray.origin, ray.direction, cut)
    }

    /// The cast along `ray` up to distance `max` or [`DISTANCE_LIMIT`], whichever is less.
    pub open spec fn spec_from_ray(ray: Ray3d, max: u32) -> RayCast3d {
        RayCast3d {
            origin: ray.origin,
            direction: ray.direction,
            max: if max > DISTANCE_LIMIT {
                DISTANCE_LIMIT
            } else {
                max as i64
            },
        }
    }
}

/// The parameters admitted so far: all of them until an axis along which the ray
/// moves has bounded the interval, then those `n / d` from `low` to `high`.
#[derive(Clone, Copy)]
struct Slab {
    low_n: i64,
    low_d: i64,
    high_n: i64,
    high_d: i64,
    bounded: bool,
    empty: bool,
}

impl Slab {
    spec fn wf(self) -> bool {
        &&& -2 * VOLUME_LIMIT <= self.low_n <= 2 * VOLUME_LIMIT
        &&& 0 < self.low_d <= DIRECTION_LIMIT
        &&& -2 * VOLUME_LIMIT <= self.high_n <= 2 * VOLUME_LIMIT
        &&& 0 < self.high_d <= DIRECTION_LIMIT
    }

    spec fn admits(self, n: int, d: int) -> bool {
        &&& !self.empty
        &&& self.bounded ==> frac_le(self.low_n as int, self.low_d as int, n, d)
        &&& self.bounded ==> frac_le(n, d, self.high_n as int, self.high_d as int)
    }
}

/// `a / b <= c / d` and `c / d <= e / f` give `a / b <= e / f`.
proof fn lemma_frac_le_transitive(a: int, b: int, c: int, d: int, e: int, f: int)
    by (nonlinear_arith)
    requires
        0 < b,
        0 < d,
        0 < f,
        a * d <= c * b,
        c * f <= e * d,
    ensures
        a * f <= e * b,
{
    assert((a * d) * f <= (c * b) * f);
    assert((c * f) * b <= (e * d) * b);
    assert((a * d) * f == (a * f) * d);
    assert((c * b) * f == (c * f) * b);
    assert((e * d) * b == (e * b) * d);
    assert((a * f) * d <= (e * b) * d);
}

/// Along an axis on which the ray moves, the admitted parameters form the interval
/// from `near / den` to `far / den`.
proof fn lemma_axis_interval(origin: int, direction: int, low: int, high: int, n: int, d: int)
    by (nonlinear_arith)
    requires
        direction != 0,
    ensures
        direction > 0 ==> (axis_admits(origin, direction, low, high, n, d) <==> ((low - origin) * d
            <= n * direction && n * direction <= (high - origin) * d)),
        direction < 0 ==> (axis_admits(origin, direction, low, high, n, d) <==> ((origin - high)
            * d <= n * (-direction) && n * (-direction) <= (origin - low) * d)),
{
    assert((low - origin) * d == low * d - origin * d);
    assert((high - origin) * d == high * d - origin * d);
    assert((origin - high) * d == origin * d - high * d);
    assert((origin - low) * d == origin * d - low * d);
    assert(n * (-direction) == -(n * direction));
}

/// Along an axis on which the ray does not move, every parameter is admitted or none,
/// as the origin lies between the two faces or not.
proof fn lemma_axis_still(origin: int, low: int, high: int, n: int, d: int)
    by (nonlinear_arith)
    requires
        0 < d,
    ensures
        axis_admits(origin, 0, low, high, n, d) <==> low <= origin <= high,
{
    assert(n * 0 == 0);
    assert(low <= origin ==> low * d <= origin * d);
    assert(low > origin ==> low * d > origin * d);
    assert(origin <= high ==> origin * d <= high * d);
    assert(origin > high ==> origin * d > high * d);
}

/// Narrows the admitted interval by one axis.
fn clip_axis(slab: Slab, origin: i64, direction: i64, low: i64, high: i64) -> (clipped: Slab)
    requires
        slab.wf(),
        -VOLUME_LIMIT <= origin <= VOLUME_LIMIT,
        -VOLUME_LIMIT <= low <= high <= VOLUME_LIMIT,
        -DIRECTION_LIMIT <= direction <= DIRECTION_LIMIT,
    ensures
        clipped.wf(),
        clipped.bounded == (slab.bounded || direction != 0),
        forall|n: int, d: int|
            0 < d ==> (#[trigger] clipped.admits(n, d) <==> slab.admits(n, d) && axis_admits(
                origin as int,
                direction as int,
                low as int,
                high as int,
                n,
                d,
            )),
{
    if direction == 0 {
        let outside = origin < low || origin > high;
        let clipped = Slab {
            low_n: slab.low_n,
            low_d: slab.low_d,
            high_n: slab.high_n,
            high_d: slab.high_d,
            bounded: slab.bounded,
            empty: slab.empty || outside,
        };
        proof {
            assert forall|n: int, d: int| 0 < d implies (#[trigger] clipped.admits(n, d)
                <==> slab.admits(n, d) && axis_admits(
                origin as int,
                direction as int,
                low as int,
                high as int,
                n,
                d,
            )) by {
                lemma_axis_still(origin as int, low as int, high as int, n, d);
            }
        }
        return clipped;
    }
    let near: i64 = if direction > 0 {
        low - origin
    } else {
        origin - high
    };
    let far: i64 = if direction > 0 {
        high - origin
    } else {
        origin - low
    };
    let den: i64 = if direction > 0 {
        direction
    } else {
        -direction
    };
    proof {
        lemma_product_bound(near as int, slab.low_d as int, 33_554_432, 137_438_953_472);
        lemma_product_bound(slab.low_n as int, den as int, 33_554_432, 137_438_953_472);
        lemma_product_bound(far as int, slab.high_d as int, 33_554_432, 137_438_953_472);
        lemma_product_bound(slab.high_n as int, den as int, 33_554_432, 137_438_953_472);
    }
    let take_low = !slab.bounded || (near as i128) * (slab.low_d as i128) > (slab.low_n as i128)
        * (den as i128);
    let take_high = !slab.bounded || (far as i128) * (slab.high_d as i128) < (slab.high_n as i128)
        * (den as i128);
    let clipped = Slab {
        low_n: if take_low {
            near
        } else {
            slab.low_n
        },
        low_d: if take_low {
            den
        } else {
            slab.low_d
        },
        high_n: if take_high {
            far
        } else {
            slab.high_n
        },
        high_d: if take_high {
            den
        } else {
            slab.high_d
        },
        bounded: true,
        empty: slab.empty,
    };
    proof {
        assert forall|n: int, d: int| 0 < d implies (#[trigger] clipped.admits(n, d) <==> slab.admits(
            n,
            d,
        ) && axis_admits(origin as int, direction as int, low as int, high as int, n, d)) by {
            lemma_axis_interval(origin as int, direction as int, low as int, high as int, n, d);
            let within = frac_le(near as int, den as int, n, d) && frac_le(
                n,
                d,
                far as int,
                den as int,
            );
            assert(axis_admits(origin as int, direction as int, low as int, high as int, n, d)
                <==> within);
            // The lower end: the larger of the two bounds implies the smaller.
            if !slab.bounded {
            } else if take_low {
                if frac_le(near as int, den as int, n, d) {
                    lemma_frac_le_transitive(
                        slab.low_n as int,
                        slab.low_d as int,
                        near as int,
                        den as int,
                        n,
                        d,
                    );
                }
            } else {
                if frac_le(slab.low_n as int, slab.low_d as int, n, d) {
                    lemma_frac_le_transitive(
                        near as int,
                        den as int,
                        slab.low_n as int,
                        slab.low_d as int,
                        n,
                        d,
                    );
                }
            }
            // The upper end: the smaller of the two bounds implies the larger.
            if slab.bounded {
                if take_high {
                    if frac_le(n, d, far as int, den as int) {
                        lemma_frac_le_transitive(
                            n,
                            d,
                            far as int,
                            den as int,
                            slab.high_n as int,
                            slab.high_d as int,
                        );
                    }
                } else {
                    if frac_le(n, d, slab.high_n as int, slab.high_d as int) {
                        lemma_frac_le_transitive(
                            n,
                            d,
                            slab.high_n as int,
                            slab.high_d as int,
                            far as int,
                            den as int,
                        );
                    }
                }
            }
        }
    }
    clipped
}

/// A parameter that lies before one in range is in range itself.
proof fn lemma_range_monotone(a: int, b: int, n: int, d: int, len_sq: int, max: int)
    by (nonlinear_arith)
    requires
        0 <= a,
        0 < b,
        0 < d,
        0 <= len_sq,
        a * d <= n * b,
        (n * n) * len_sq <= (max * max) * (d * d),
    ensures
        (a * a) * len_sq <= (max * max) * (b * b),
{
    assert(0 <= a * d);
    assert((a * d) * (a * d) <= (n * b) * (n * b));
    assert((a * d) * (a * d) == (a * a) * (d * d));
    assert((n * b) * (n * b) == (n * n) * (b * b));
    assert(((a * a) * (d * d)) * len_sq <= ((n * n) * (b * b)) * len_sq);
    assert(((n * n) * (b * b)) * len_sq == ((n * n) * len_sq) * (b * b));
    assert(0 <= b * b);
    assert(((n * n) * len_sq) * (b * b) <= ((max * max) * (d * d)) * (b * b));
    assert(((a * a) * (d * d)) * len_sq == ((a * a) * len_sq) * (d * d));
    assert(((max * max) * (d * d)) * (b * b) == ((max * max) * (b * b)) * (d * d));
    assert(((a * a) * len_sq) * (d * d) <= ((max * max) * (b * b)) * (d * d));
    assert(0 < d * d);
}

/// The squared length of a direction within [`DIRECTION_LIMIT`].
proof fn lemma_length_squared_bound(v: IVec3)
    requires
        v.within(DIRECTION_LIMIT as int),
    ensures
        0 <= v.length_squared() <= 3 * 18889465931478580854784,
        0 <= v.x * v.x <= 18889465931478580854784,
        0 <= v.y * v.y <= 18889465931478580854784,
        0 <= v.z * v.z <= 18889465931478580854784,
{
    lemma_product_bound(v.x as int, v.x as int, 137_438_953_472, 137_438_953_472);
    lemma_product_bound(v.y as int, v.y as int, 137_438_953_472, 137_438_953_472);
    lemma_product_bound(v.z as int, v.z as int, 137_438_953_472, 137_438_953_472);
    assert(v.x * v.x >= 0 && v.y * v.y >= 0 && v.z * v.z >= 0) by (nonlinear_arith);
}

/// `distance` is the whole part of the distance from the origin to the point at
/// parameter `n / d` on a ray whose direction has squared length `len_sq`.
pub open spec fn is_floor_distance(n: int, d: int, len_sq: int, distance: int) -> bool {
    &&& 0 <= distance
    &&& (distance * distance) * (d * d) <= (n * n) * len_sq
    &&& (n * n) * len_sq < ((distance + 1) * (distance + 1)) * (d * d)
}

/// `mid * mid * unit` stays within the bound of `max * max * unit`.
proof fn lemma_square_times_bound(mid: int, max: int, unit: int, unit_max: int)
    by (nonlinear_arith)
    requires
        0 <= mid <= max,
        0 <= unit <= unit_max,
    ensures
        0 <= mid * mid <= max * max,
        0 <= (mid * mid) * unit <= (max * max) * unit_max,
{
}

/// The whole part of the square root of `amount / unit`, where that is at most `max`.
fn floor_root(amount: i128, unit: i128, max: i64) -> (root: i64)
    requires
        0 <= amount,
        0 < unit <= 18889465931478580854784,
        0 <= max <= DISTANCE_LIMIT,
        amount <= (max * max) * unit,
    ensures
        0 <= root <= max,
        (root * root) * unit <= amount,
        amount < ((root + 1) * (root + 1)) * unit,
{
    let mut low: i64 = 0;
    let mut high: i64 = max + 1;
    proof {
        assert((0 * 0) * unit == 0);
        assert((max * max) * unit < ((max + 1) * (max + 1)) * unit) by (nonlinear_arith)
            requires
                0 <= max,
                0 < unit,
        ;
    }
    while high - low > 1
        invariant
            0 <= low < high <= max + 1,
            0 <= max <= DISTANCE_LIMIT,
            0 < unit <= 18889465931478580854784,
            (low * low) * unit <= amount,
            amount < (high * high) * unit,
        decreases high - low,
    {
        let mid: i64 = low + (high - low) / 2;
        proof {
            lemma_square_times_bound(
                mid as int,
                67_108_864,
                unit as int,
                18889465931478580854784,
            );
        }
        let square: i128 = (mid as i128) * (mid as i128);
        if square * unit <= amount {
            low = mid;
        } else {
            high = mid;
        }
    }
    low
}

impl RayCast3d {
    /// `distance` is the whole part of the distance from the origin to the point at
    /// which the cast enters the box.
    pub open spec fn entry_distance_is(self, aabb: Aabb3d, distance: int) -> bool {
        exists|n: int, d: int|
            #![trigger self.enters_at(aabb, n, d)]
            self.enters_at(aabb, n, d) && is_floor_distance(
                n,
                d,
                self.direction.length_squared(),
                distance,
            )
    }

    /// The squared length of the direction.
    fn direction_length_squared(&self) -> (len_sq: i128)
        requires
            self.wf(),
        ensures
            len_sq == self.direction.length_squared(),
            0 < len_sq <= 3 * 18889465931478580854784,
    {
        proof {
            lemma_length_squared_bound(self.direction);
            let v = self.direction;
            assert(v.x != 0 ==> v.x * v.x > 0) by (nonlinear_arith);
            assert(v.y != 0 ==> v.y * v.y > 0) by (nonlinear_arith);
            assert(v.z != 0 ==> v.z * v.z > 0) by (nonlinear_arith);
        }
        let x: i128 = self.direction.x as i128;
        let y: i128 = self.direction.y as i128;
        let z: i128 = self.direction.z as i128;
        x * x + y * y + z * z
    }

    /// The parameter at which the cast enters the box, as numerator and denominator,
    /// found by intersecting the intervals of the three axes.
    fn entry(&self, aabb: &Aabb3d) -> (found: Option<(i64, i64)>)
        requires
            self.wf(),
            aabb.wf(),
        ensures
            found.is_some() == self.intersects(*aabb),
            found.is_some() ==> self.enters_at(*aabb, found.unwrap().0 as int, found.unwrap().1 as int),
            found.is_some() ==> 0 <= found.unwrap().0 <= 2 * VOLUME_LIMIT && 0 < found.unwrap().1
                <= DIRECTION_LIMIT,
    {
        let start = Slab { low_n: 0, low_d: 1, high_n: 0, high_d: 1, bounded: false, empty: false };
        let by_x = clip_axis(start, self.origin.x, self.direction.x, aabb.min.x, aabb.max.x);
        let by_y = clip_axis(by_x, self.origin.y, self.direction.y, aabb.min.y, aabb.max.y);
        let slab = clip_axis(by_y, self.origin.z, self.direction.z, aabb.min.z, aabb.max.z);
        proof {
            assert forall|n: int, d: int| 0 < d implies (#[trigger] slab.admits(n, d)
                <==> self.inside(*aabb, n, d)) by {
                assert(start.admits(n, d));
                assert(by_x.admits(n, d) <==> start.admits(n, d) && axis_admits(
                    self.origin.x as int,
                    self.direction.x as int,
                    aabb.min.x as int,
                    aabb.max.x as int,
                    n,
                    d,
                ));
                assert(by_y.admits(n, d) <==> by_x.admits(n, d) && axis_admits(
                    self.origin.y as int,
                    self.direction.y as int,
                    aabb.min.y as int,
                    aabb.max.y as int,
                    n,
                    d,
                ));
            }
            assert forall|n: int, d: int| self.meets(*aabb, n, d) implies #[trigger] slab.admits(
                n,
                d,
            ) by {}
        }
        if slab.empty {
            proof {
                assert forall|n: int, d: int| self.enters_at(*aabb, n, d) implies false by {
                    assert(slab.admits(n, d));
                }
            }
            return None;
        }
        let low_n: i64 = slab.low_n;
        let low_d: i64 = slab.low_d;
        proof {
            lemma_product_bound(
                low_n as int,
                slab.high_d as int,
                33_554_432,
                137_438_953_472,
            );
            lemma_product_bound(
                slab.high_n as int,
                low_d as int,
                33_554_432,
                137_438_953_472,
            );
        }
        if (low_n as i128) * (slab.high_d as i128) > (slab.high_n as i128) * (low_d as i128) {
            proof {
                assert forall|n: int, d: int| self.enters_at(*aabb, n, d) implies false by {
                    assert(slab.admits(n, d));
                    lemma_frac_le_transitive(
                        low_n as int,
                        low_d as int,
                        n,
                        d,
                        slab.high_n as int,
                        slab.high_d as int,
                    );
                }
            }
            return None;
        }
        proof {
            // The lower end of the interval is the near bound of the line.
            assert(slab.admits(low_n as int, low_d as int));
            assert(self.meets(*aabb, low_n as int, low_d as int));
            assert forall|n2: int, d2: int| #[trigger]
                self.meets(*aabb, n2, d2) implies frac_le(low_n as int, low_d as int, n2, d2) by {
                assert(slab.admits(n2, d2));
            }
            assert(self.first_meets(*aabb, low_n as int, low_d as int));
        }
        if low_n < 0 {
            proof {
                assert forall|n: int, d: int| self.enters_at(*aabb, n, d) implies false by {
                    assert(frac_le(n, d, low_n as int, low_d as int));
                    assert(n * low_d < 0) by (nonlinear_arith)
                        requires
                            n * low_d <= low_n * d,
                            low_n < 0,
                            0 < d,
                    ;
                    assert(false) by (nonlinear_arith)
                        requires
                            n * low_d < 0,
                            0 <= n,
                            0 < low_d,
                    ;
                }
            }
            return None;
        }
        let len_sq: i128 = self.direction_length_squared();
        proof {
            lemma_square_times_bound(
                low_n as int,
                33_554_432,
                len_sq as int,
                56668397794435742564352,
            );
            lemma_product_bound(low_d as int, low_d as int, 137_438_953_472, 137_438_953_472);
            lemma_square_times_bound(
                self.max as int,
                67_108_864,
                (low_d * low_d) as int,
                18889465931478580854784,
            );
        }
        let travelled: i128 = ((low_n as i128) * (low_n as i128)) * len_sq;
        let allowed: i128 = ((self.max as i128) * (self.max as i128)) * ((low_d as i128) * (
        low_d as i128));
        if travelled > allowed {
            proof {
                assert forall|n: int, d: int| self.enters_at(*aabb, n, d) implies false by {
                    assert(slab.admits(n, d));
                    lemma_range_monotone(
                        low_n as int,
                        low_d as int,
                        n,
                        d,
                        len_sq as int,
                        self.max as int,
                    );
                }
            }
            return None;
        }
        proof {
            assert(self.enters_at(*aabb, low_n as int, low_d as int));
        }
        Some((low_n, low_d))
    }

    /// The distance from the origin to the point at which the cast enters the box,
    /// rounded down to whole ticks, if the cast hits the box: that is, if the line
    /// through the cast meets the box, and the least parameter at which it does is not
    /// negative and lies within `max`. A cast that starts strictly inside a box does
    /// not hit it.
    pub fn aabb_intersection_at(&self, aabb: &Aabb3d) -> (distance: Option<i64>)
        requires
            self.wf(),
            aabb.wf(),
        ensures
            distance.is_some() == self.intersects(*aabb),
            distance.is_some() ==> 0 <= distance.unwrap() <= self.max && self.entry_distance_is(
                *aabb,
                distance.unwrap() as int,
            ),
    {
        match self.entry(aabb) {
            None => None,
            Some((n, d)) => {
                let len_sq: i128 = self.direction_length_squared();
                proof {
                    lemma_square_times_bound(
                        n as int,
                        33_554_432,
                        len_sq as int,
                        56668397794435742564352,
                    );
                    lemma_product_bound(d as int, d as int, 137_438_953_472, 137_438_953_472);
                    assert(d * d > 0) by (nonlinear_arith)
                        requires
                            d > 0,
                    ;
                }
                let travelled: i128 = ((n as i128) * (n as i128)) * len_sq;
                let unit: i128 = (d as i128) * (d as i128);
                let root: i64 = floor_root(travelled, unit, self.max);
                proof {
                    assert(self.enters_at(*aabb, n as int, d as int));
                    assert(is_floor_distance(n as int, d as int, len_sq as int, root as int));
                }
                Some(root)
            },
        }
    }
}

} // verus!
