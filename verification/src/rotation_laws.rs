//! The matrix of a quaternion is a rotation matrix: its columns are orthogonal and
//! equally long, so it keeps lengths.
//!
//! The identities are polynomial identities of degree four. Each is proved from
//! small steps: products of sums are multiplied out two factors at a time, and the
//! monomials that remain are matched by regrouping their factors.

use vstd::prelude::*;
use crate::rotation::{IQuat, lemma_norm_sq_bounds};

verus! {

/// Products of four factors, regrouped.
proof fn lemma_regroup(a: int, b: int, c: int, d: int)
    by (nonlinear_arith)
    ensures
        (a * b) * (c * d) == (a * c) * (b * d),
        (a * b) * (c * d) == (a * d) * (b * c),
        (a * b) * (c * d) == (c * b) * (a * d),
        (a * b) * (c * d) == (d * b) * (c * a),
        (a * b) * (c * d) == (c * a) * (d * b),
        (a * b) * (c * d) == (d * a) * (c * b),
        (a * b) * (c * d) == (b * c) * (a * d),
        (a * b) * (c * d) == (b * d) * (a * c),
        (a * b) * (c * d) == (b * d) * (c * a),
{
}

/// A signed sum of four terms times one factor.
proof fn lemma_four_by_one(e1: int, e2: int, e3: int, e4: int, f: int)
    by (nonlinear_arith)
    ensures
        (e1 + e2 - e3 - e4) * f == f * e1 + f * e2 - f * e3 - f * e4,
        (e1 - e2 + e3 - e4) * f == f * e1 - f * e2 + f * e3 - f * e4,
        (e1 - e2 - e3 + e4) * f == f * e1 - f * e2 - f * e3 + f * e4,
{
}

/// A factor times twice a sum or a difference.
proof fn lemma_one_by_two(k: int, f1: int, f2: int)
    by (nonlinear_arith)
    ensures
        k * (2 * (f1 + f2)) == 2 * (k * f1) + 2 * (k * f2),
        k * (2 * (f1 - f2)) == 2 * (k * f1) - 2 * (k * f2),
        (2 * (f1 + f2)) * k == 2 * (k * f1) + 2 * (k * f2),
        (2 * (f1 - f2)) * k == 2 * (k * f1) - 2 * (k * f2),
{
}

/// A diagonal entry times an entry off the diagonal, multiplied out.
proof fn lemma_four_by_two(e1: int, e2: int, e3: int, e4: int, f1: int, f2: int)
    ensures
        (e1 + e2 - e3 - e4) * (2 * (f1 + f2)) == 2 * (f1 * e1 + f1 * e2 - f1 * e3 - f1 * e4 + f2
            * e1 + f2 * e2 - f2 * e3 - f2 * e4),
        (e1 + e2 - e3 - e4) * (2 * (f1 - f2)) == 2 * (f1 * e1 + f1 * e2 - f1 * e3 - f1 * e4 - f2
            * e1 - f2 * e2 + f2 * e3 + f2 * e4),
        (2 * (f1 + f2)) * (e1 - e2 + e3 - e4) == 2 * (f1 * e1 - f1 * e2 + f1 * e3 - f1 * e4 + f2
            * e1 - f2 * e2 + f2 * e3 - f2 * e4),
        (e1 - e2 + e3 - e4) * (2 * (f1 - f2)) == 2 * (f1 * e1 - f1 * e2 + f1 * e3 - f1 * e4 - f2
            * e1 + f2 * e2 - f2 * e3 + f2 * e4),
        (2 * (f1 - f2)) * (e1 - e2 - e3 + e4) == 2 * (f1 * e1 - f1 * e2 - f1 * e3 + f1 * e4 - f2
            * e1 + f2 * e2 + f2 * e3 - f2 * e4),
        (2 * (f1 + f2)) * (e1 - e2 - e3 + e4) == 2 * (f1 * e1 - f1 * e2 - f1 * e3 + f1 * e4 + f2
            * e1 - f2 * e2 - f2 * e3 + f2 * e4),
{
    lemma_one_by_two(e1 + e2 - e3 - e4, f1, f2);
    lemma_one_by_two(e1 - e2 + e3 - e4, f1, f2);
    lemma_one_by_two(e1 - e2 - e3 + e4, f1, f2);
    lemma_four_by_one(e1, e2, e3, e4, f1);
    lemma_four_by_one(e1, e2, e3, e4, f2);
}

/// Two entries off the diagonal, multiplied out.
proof fn lemma_two_by_two(p: int, q: int, t: int, u: int)
    by (nonlinear_arith)
    ensures
        (2 * (p + q)) * (2 * (t - u)) == 4 * (p * t - p * u + q * t - q * u),
        (2 * (p - q)) * (2 * (t + u)) == 4 * (p * t + p * u - q * t - q * u),
{
}

/// The squares of twice a sum and of twice a difference.
proof fn lemma_twice_squares(r: int, s: int)
    by (nonlinear_arith)
    ensures
        (2 * (r + s)) * (2 * (r + s)) == 4 * (r * r + s * s) + 8 * (r * s),
        (2 * (r - s)) * (2 * (r - s)) == 4 * (r * r + s * s) - 8 * (r * s),
{
}

/// The square of the sum of two terms less the square of their difference.
proof fn lemma_square_difference(m: int, k: int)
    by (nonlinear_arith)
    ensures
        (m + k) * (m + k) - (m - k) * (m - k) == 4 * (m * k),
{
}

/// The product of two sums of two terms.
proof fn lemma_sum_by_sum(a: int, b: int, c: int, d: int)
    by (nonlinear_arith)
    ensures
        (a + b) * (c + d) == a * c + a * d + b * c + b * d,
{
}

/// The square of the squared norm less the square of a diagonal entry.
proof fn lemma_diagonal_squares(a: int, b: int, c: int, d: int)
    ensures
        (a + b + c + d) * (a + b + c + d) - (a + b - c - d) * (a + b - c - d) == 4 * (a * c + a * d
            + b * c + b * d),
        (a + b + c + d) * (a + b + c + d) - (a - b + c - d) * (a - b + c - d) == 4 * (a * b + a * d
            + c * b + c * d),
        (a + b + c + d) * (a + b + c + d) - (a - b - c + d) * (a - b - c + d) == 4 * (a * b + a * c
            + d * b + d * c),
{
    lemma_square_difference(a + b, c + d);
    lemma_sum_by_sum(a, b, c, d);
    assert((a + b) + (c + d) == a + b + c + d && (a + b) - (c + d) == a + b - c - d);
    lemma_square_difference(a + c, b + d);
    lemma_sum_by_sum(a, c, b, d);
    assert((a + c) + (b + d) == a + b + c + d && (a + c) - (b + d) == a - b + c - d);
    lemma_square_difference(a + d, b + c);
    lemma_sum_by_sum(a, d, b, c);
    assert((a + d) + (b + c) == a + b + c + d && (a + d) - (b + c) == a - b - c + d);
}

/// The first column of the scaled rotation matrix is as long as the squared norm.
proof fn lemma_first_column_length(q: IQuat)
    ensures
        q.xx() * q.xx() + q.yx() * q.yx() + q.zx() * q.zx() == q.norm_sq() * q.norm_sq(),
{
    let (w, x, y, z) = (q.w as int, q.x as int, q.y as int, q.z as int);
    let (a, b, c, d) = (w * w, x * x, y * y, z * z);
    let (p, k, r, s) = (x * y, w * z, x * z, w * y);
    lemma_diagonal_squares(a, b, c, d);
    lemma_twice_squares(p, k);
    lemma_twice_squares(r, s);
    lemma_regroup(x, y, x, y);
    lemma_regroup(w, z, w, z);
    lemma_regroup(x, z, x, z);
    lemma_regroup(w, y, w, y);
    lemma_regroup(x, y, w, z);
    assert(p * p == b * c);
    assert(k * k == a * d);
    assert(r * r == b * d);
    assert(s * s == a * c);
    assert(p * k == r * s);
}

/// The second column of the scaled rotation matrix is as long as the squared norm.
proof fn lemma_second_column_length(q: IQuat)
    ensures
        q.xy() * q.xy() + q.yy() * q.yy() + q.zy() * q.zy() == q.norm_sq() * q.norm_sq(),
{
    let (w, x, y, z) = (q.w as int, q.x as int, q.y as int, q.z as int);
    let (a, b, c, d) = (w * w, x * x, y * y, z * z);
    let (p, k, t, u) = (x * y, w * z, y * z, w * x);
    lemma_diagonal_squares(a, b, c, d);
    lemma_twice_squares(p, k);
    lemma_twice_squares(t, u);
    lemma_regroup(x, y, x, y);
    lemma_regroup(w, z, w, z);
    lemma_regroup(y, z, y, z);
    lemma_regroup(w, x, w, x);
    lemma_regroup(x, y, w, z);
    assert(p * p == b * c);
    assert(k * k == a * d);
    assert(t * t == c * d);
    assert(u * u == a * b);
    assert(p * k == t * u);
}

/// The third column of the scaled rotation matrix is as long as the squared norm.
proof fn lemma_third_column_length(q: IQuat)
    ensures
        q.xz() * q.xz() + q.yz() * q.yz() + q.zz() * q.zz() == q.norm_sq() * q.norm_sq(),
{
    let (w, x, y, z) = (q.w as int, q.x as int, q.y as int, q.z as int);
    let (a, b, c, d) = (w * w, x * x, y * y, z * z);
    let (r, s, t, u) = (x * z, w * y, y * z, w * x);
    lemma_diagonal_squares(a, b, c, d);
    lemma_twice_squares(r, s);
    lemma_twice_squares(t, u);
    lemma_regroup(x, z, x, z);
    lemma_regroup(w, y, w, y);
    lemma_regroup(y, z, y, z);
    lemma_regroup(w, x, w, x);
    lemma_regroup(x, z, w, y);
    assert(r * r == b * d);
    assert(s * s == a * c);
    assert(t * t == c * d);
    assert(u * u == a * b);
    assert(r * s == t * u);
}

/// The first and the second column of the scaled rotation matrix are orthogonal.
proof fn lemma_first_second_orthogonal(q: IQuat)
    ensures
        q.xx() * q.xy() + q.yx() * q.yy() + q.zx() * q.zy() == 0,
{
    let (w, x, y, z) = (q.w as int, q.x as int, q.y as int, q.z as int);
    let (a, b, c, d) = (w * w, x * x, y * y, z * z);
    let (p, k, r, s, t, u) = (x * y, w * z, x * z, w * y, y * z, w * x);
    lemma_four_by_two(a, b, c, d, p, k);
    lemma_two_by_two(r, s, t, u);
    lemma_regroup(x, y, w, w);
    lemma_regroup(x, y, z, z);
    lemma_regroup(w, z, x, x);
    lemma_regroup(w, z, y, y);
    assert(p * a == s * u);
    assert(p * d == r * t);
    assert(k * b == r * u);
    assert(k * c == s * t);
}

/// The first and the third column of the scaled rotation matrix are orthogonal.
proof fn lemma_first_third_orthogonal(q: IQuat)
    ensures
        q.xx() * q.xz() + q.yx() * q.yz() + q.zx() * q.zz() == 0,
{
    let (w, x, y, z) = (q.w as int, q.x as int, q.y as int, q.z as int);
    let (a, b, c, d) = (w * w, x * x, y * y, z * z);
    let (p, k, r, s, t, u) = (x * y, w * z, x * z, w * y, y * z, w * x);
    lemma_four_by_two(a, b, c, d, r, s);
    lemma_two_by_two(p, k, t, u);
    lemma_regroup(x, z, w, w);
    lemma_regroup(x, z, y, y);
    lemma_regroup(w, y, x, x);
    lemma_regroup(w, y, z, z);
    assert(r * a == k * u);
    assert(r * c == p * t);
    assert(s * b == p * u);
    assert(s * d == k * t);
}

/// The second and the third column of the scaled rotation matrix are orthogonal.
proof fn lemma_second_third_orthogonal(q: IQuat)
    ensures
        q.xy() * q.xz() + q.yy() * q.yz() + q.zy() * q.zz() == 0,
{
    let (w, x, y, z) = (q.w as int, q.x as int, q.y as int, q.z as int);
    let (a, b, c, d) = (w * w, x * x, y * y, z * z);
    let (p, k, r, s, t, u) = (x * y, w * z, x * z, w * y, y * z, w * x);
    lemma_four_by_two(a, b, c, d, t, u);
    lemma_two_by_two(p, k, r, s);
    lemma_regroup(y, z, w, w);
    lemma_regroup(y, z, x, x);
    lemma_regroup(w, x, y, y);
    lemma_regroup(w, x, z, z);
    assert(t * a == k * s);
    assert(t * b == p * r);
    assert(u * c == p * s);
    assert(u * d == k * r);
}

/// The matrix of a quaternion, divided by the squared norm, is orthogonal: each column
/// of the scaled matrix has the squared length `norm_sq²`, and any two columns are
/// orthogonal to each other.
pub proof fn lemma_matrix_is_orthogonal(q: IQuat)
    ensures
        q.xx() * q.xx() + q.yx() * q.yx() + q.zx() * q.zx() == q.norm_sq() * q.norm_sq(),
        q.xy() * q.xy() + q.yy() * q.yy() + q.zy() * q.zy() == q.norm_sq() * q.norm_sq(),
        q.xz() * q.xz() + q.yz() * q.yz() + q.zz() * q.zz() == q.norm_sq() * q.norm_sq(),
        q.xx() * q.xy() + q.yx() * q.yy() + q.zx() * q.zy() == 0,
        q.xx() * q.xz() + q.yx() * q.yz() + q.zx() * q.zz() == 0,
        q.xy() * q.xz() + q.yy() * q.yz() + q.zy() * q.zz() == 0,
{
    lemma_first_column_length(q);
    lemma_second_column_length(q);
    lemma_third_column_length(q);
    lemma_first_second_orthogonal(q);
    lemma_first_third_orthogonal(q);
    lemma_second_third_orthogonal(q);
}

/// The square of a sum of three terms.
proof fn lemma_square_of_three(a: int, b: int, c: int)
    by (nonlinear_arith)
    ensures
        (a + b + c) * (a + b + c) == a * a + b * b + c * c + 2 * (a * b) + 2 * (a * c) + 2 * (b
            * c),
{
}

/// The square of one row of a matrix applied to a vector.
proof fn lemma_row_square(a: int, b: int, c: int, u: int, v: int, t: int)
    ensures
        (a * u + b * v + c * t) * (a * u + b * v + c * t) == (a * a) * (u * u) + (b * b) * (v * v)
            + (c * c) * (t * t) + 2 * ((a * b) * (u * v)) + 2 * ((a * c) * (u * t)) + 2 * ((b * c)
            * (v * t)),
{
    lemma_square_of_three(a * u, b * v, c * t);
    lemma_regroup(a, u, a, u);
    lemma_regroup(b, v, b, v);
    lemma_regroup(c, t, c, t);
    lemma_regroup(a, u, b, v);
    lemma_regroup(a, u, c, t);
    lemma_regroup(b, v, c, t);
}

/// A sum of three terms times one factor.
proof fn lemma_three_by_one(a: int, b: int, c: int, k: int)
    by (nonlinear_arith)
    ensures
        (a + b + c) * k == a * k + b * k + c * k,
        k * (a + b + c) == k * a + k * b + k * c,
{
}

/// A rotation keeps lengths: the scaled image of a vector is `norm_sq` times as long
/// as the vector.
pub proof fn lemma_rotation_preserves_length(q: IQuat, vx: int, vy: int, vz: int)
    ensures
        q.rotate_x(vx, vy, vz) * q.rotate_x(vx, vy, vz) + q.rotate_y(vx, vy, vz) * q.rotate_y(
            vx,
            vy,
            vz,
        ) + q.rotate_z(vx, vy, vz) * q.rotate_z(vx, vy, vz) == (q.norm_sq() * q.norm_sq()) * (vx
            * vx + vy * vy + vz * vz),
{
    let nn = q.norm_sq() * q.norm_sq();
    lemma_matrix_is_orthogonal(q);
    lemma_row_square(q.xx(), q.xy(), q.xz(), vx, vy, vz);
    lemma_row_square(q.yx(), q.yy(), q.yz(), vx, vy, vz);
    lemma_row_square(q.zx(), q.zy(), q.zz(), vx, vy, vz);
    lemma_three_by_one(q.xx() * q.xx(), q.yx() * q.yx(), q.zx() * q.zx(), vx * vx);
    lemma_three_by_one(q.xy() * q.xy(), q.yy() * q.yy(), q.zy() * q.zy(), vy * vy);
    lemma_three_by_one(q.xz() * q.xz(), q.yz() * q.yz(), q.zz() * q.zz(), vz * vz);
    lemma_three_by_one(q.xx() * q.xy(), q.yx() * q.yy(), q.zx() * q.zy(), vx * vy);
    lemma_three_by_one(q.xx() * q.xz(), q.yx() * q.yz(), q.zx() * q.zz(), vx * vz);
    lemma_three_by_one(q.xy() * q.xz(), q.yy() * q.yz(), q.zy() * q.zz(), vy * vz);
    lemma_three_by_one(vx * vx, vy * vy, vz * vz, nn);
    assert(0 * (vx * vy) == 0 && 0 * (vx * vz) == 0 && 0 * (vy * vz) == 0);
}

/// A rotation sends no vector but the zero vector to zero.
pub proof fn lemma_rotated_is_nonzero(q: IQuat, vx: int, vy: int, vz: int)
    requires
        q.wf(),
        vx != 0 || vy != 0 || vz != 0,
    ensures
        !(q.rotate_x(vx, vy, vz) == 0 && q.rotate_y(vx, vy, vz) == 0 && q.rotate_z(vx, vy, vz)
            == 0),
{
    let n = q.norm_sq();
    lemma_norm_sq_bounds(q);
    lemma_rotation_preserves_length(q, vx, vy, vz);
    assert((n * n) * (vx * vx + vy * vy + vz * vz) > 0) by (nonlinear_arith)
        requires
            n > 0,
            vx != 0 || vy != 0 || vz != 0,
    ;
}

} // verus!
