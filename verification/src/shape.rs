//! Convex collision shapes and the degeneracy check that guards their
//! construction.
//!
//! A world point set can only form a convex shape when it spans a volume:
//! it must hold four points that do not lie in one plane. Taking the first
//! point as base, that is the same as three difference vectors with a
//! non-zero scalar triple product (determinant). Construction fails exactly
//! on degenerate input.

use vstd::prelude::*;

use crate::math::Vec3;
use crate::math::WORLD_BOUND;
use crate::math::bounded;
use crate::math::lemma_mul_bound;

verus! {

/// Scalar triple product of three vectors given componentwise: the
/// determinant of the 3x3 matrix with rows u, v, w.
pub open spec fn det3(
    ux: int,
    uy: int,
    uz: int,
    vx: int,
    vy: int,
    vz: int,
    wx: int,
    wy: int,
    wz: int,
) -> int {
    ux * (vy * wz - vz * wy) + uy * (vz * wx - vx * wz) + uz * (vx * wy - vy * wx)
}

/// Determinant of the differences of three points `a`, `b`, `c` against a
/// base point `p`: non-zero exactly when `p`, `a`, `b`, `c` span a volume.
pub open spec fn point_det(p: Vec3, a: Vec3, b: Vec3, c: Vec3) -> int {
    det3(
        a.x - p.x,
        a.y - p.y,
        a.z - p.z,
        b.x - p.x,
        b.y - p.y,
        b.z - p.z,
        c.x - p.x,
        c.y - p.y,
        c.z - p.z,
    )
}

/// The point set holds four points that do not lie in one plane: three of
/// them span a volume against the first point. (The affine span of a point
/// set does not depend on which of its points is the base, so anchoring at
/// the first point loses nothing.)
pub open spec fn spans_volume(ps: Seq<Vec3>) -> bool {
    exists|j: int, k: int, l: int|
        0 <= j < ps.len() && 0 <= k < ps.len() && 0 <= l < ps.len() && point_det(
            ps[0],
            ps[j],
            ps[k],
            ps[l],
        ) != 0
}

/// A degenerate point set: fewer than four non-coplanar points, so no
/// convex shape with volume can be built over it.
pub open spec fn is_degenerate(ps: Seq<Vec3>) -> bool {
    !spans_volume(ps)
}

/// Every point is a world-space coordinate.
pub open spec fn world_bounded(ps: Seq<Vec3>) -> bool {
    forall|i: int| 0 <= i < ps.len() ==> bounded(#[trigger] ps[i], WORLD_BOUND as int)
}

/// If `y * x == 0` and `x != 0` then `y == 0`.
proof fn lemma_cancel(x: int, y: int)
    by (nonlinear_arith)
    requires
        y * x == 0,
        x != 0,
    ensures
        y == 0,
{
}

/// A combination of two vanishing quantities vanishes.
proof fn lemma_comb2_zero(p: int, q: int, a: int, b: int)
    by (nonlinear_arith)
    requires
        p == 0,
        q == 0,
    ensures
        a * p + b * q == 0,
{
}

/// A difference of two vanishing quantities vanishes.
proof fn lemma_comb2_zero_sub(p: int, q: int, a: int, b: int)
    by (nonlinear_arith)
    requires
        p == 0,
        q == 0,
    ensures
        a * p - b * q == 0,
{
}

/// A combination of three vanishing quantities vanishes.
proof fn lemma_comb3_zero(p: int, q: int, r: int, a: int, b: int, c: int)
    by (nonlinear_arith)
    requires
        p == 0,
        q == 0,
        r == 0,
    ensures
        a * p + b * q + c * r == 0,
{
}

/// Distribute a left factor over a difference of products, keeping the
/// factor first in each monomial.
proof fn lemma_exp_lf(a: int, p: int, q: int, r: int, s: int)
    by (nonlinear_arith)
    ensures
        a * (p * q - r * s) == a * p * q - a * r * s,
{
}

/// Distribute a left factor over a difference of products, moving the
/// factor to the middle of each monomial.
proof fn lemma_exp_lm(a: int, p: int, q: int, r: int, s: int)
    by (nonlinear_arith)
    ensures
        a * (p * q - r * s) == p * a * q - r * a * s,
{
}

/// Distribute a left factor over a difference of products, moving the
/// factor to the end of each monomial.
proof fn lemma_exp_ll(a: int, p: int, q: int, r: int, s: int)
    by (nonlinear_arith)
    ensures
        a * (p * q - r * s) == p * q * a - r * s * a,
{
}

/// Distribute a right factor over a difference of products, moving the
/// factor to the front of each monomial.
proof fn lemma_exp_rf(a: int, p: int, q: int, r: int, s: int)
    by (nonlinear_arith)
    ensures
        (p * q - r * s) * a == a * p * q - a * r * s,
{
}

/// Distribute a right factor over a difference of products, keeping the
/// factor last in each monomial.
proof fn lemma_exp_rl(a: int, p: int, q: int, r: int, s: int)
    by (nonlinear_arith)
    ensures
        (p * q - r * s) * a == p * q * a - r * s * a,
{
}

/// Distribute a left factor over a sum of three products, moving the
/// factor to the middle of each monomial.
proof fn lemma_dot_lm(a: int, p: int, q: int, r: int, s: int, t: int, u: int)
    ensures
        a * (p * q + r * s + t * u) == p * a * q + r * a * s + t * a * u,
{
    vstd::arithmetic::mul::lemma_mul_is_distributive_add(a, p * q + r * s, t * u);
    vstd::arithmetic::mul::lemma_mul_is_distributive_add(a, p * q, r * s);
    assert(a * (p * q) == p * a * q) by (nonlinear_arith);
    assert(a * (r * s) == r * a * s) by (nonlinear_arith);
    assert(a * (t * u) == t * a * u) by (nonlinear_arith);
}

/// Distribute a left factor over a sum of three products, moving the
/// factor to the end of each monomial.
proof fn lemma_dot_ll(a: int, p: int, q: int, r: int, s: int, t: int, u: int)
    ensures
        a * (p * q + r * s + t * u) == p * q * a + r * s * a + t * u * a,
{
    vstd::arithmetic::mul::lemma_mul_is_distributive_add(a, p * q + r * s, t * u);
    vstd::arithmetic::mul::lemma_mul_is_distributive_add(a, p * q, r * s);
    assert(a * (p * q) == p * q * a) by (nonlinear_arith);
    assert(a * (r * s) == r * s * a) by (nonlinear_arith);
    assert(a * (t * u) == t * u * a) by (nonlinear_arith);
}

/// Distribute a right factor over a sum of three products, moving the
/// factor to the front of each monomial.
proof fn lemma_dot_rf(a: int, p: int, q: int, r: int, s: int, t: int, u: int)
    ensures
        (p * q + r * s + t * u) * a == a * p * q + a * r * s + a * t * u,
{
    vstd::arithmetic::mul::lemma_mul_is_distributive_add_other_way(a, p * q + r * s, t * u);
    vstd::arithmetic::mul::lemma_mul_is_distributive_add_other_way(a, p * q, r * s);
    assert((p * q) * a == a * p * q) by (nonlinear_arith);
    assert((r * s) * a == a * r * s) by (nonlinear_arith);
    assert((t * u) * a == a * t * u) by (nonlinear_arith);
}

/// Two vectors both parallel to a non-zero vector `u` are parallel to each
/// other: their cross product vanishes.
proof fn lemma_parallel_pair(
    ux: int,
    uy: int,
    uz: int,
    bx: int,
    by: int,
    bz: int,
    cx: int,
    cy: int,
    cz: int,
)
    requires
        !(ux == 0 && uy == 0 && uz == 0),
        uy * bz - uz * by == 0,
        uz * bx - ux * bz == 0,
        ux * by - uy * bx == 0,
        uy * cz - uz * cy == 0,
        uz * cx - ux * cz == 0,
        ux * cy - uy * cx == 0,
    ensures
        by * cz - bz * cy == 0,
        bz * cx - bx * cz == 0,
        bx * cy - by * cx == 0,
{
    // each cross component of (b, c), scaled by a non-zero component of u,
    // is a combination of the vanishing cross components of (u, b) and
    // (u, c); expanding everything into monomials ordered u, b, c makes the
    // combination a linear fact
    if ux != 0 {
        lemma_exp_rf(ux, by, cz, bz, cy);
        lemma_exp_ll(cz, ux, by, uy, bx);
        lemma_exp_ll(cy, uz, bx, ux, bz);
        lemma_exp_lm(bx, uy, cz, uz, cy);
        lemma_comb3_zero(ux * by - uy * bx, uz * bx - ux * bz, uy * cz - uz * cy, cz, cy, bx);
        lemma_cancel(ux, by * cz - bz * cy);
        lemma_exp_rf(ux, bz, cx, bx, cz);
        lemma_exp_lm(bx, uz, cx, ux, cz);
        lemma_exp_ll(-cx, uz, bx, ux, bz);
        lemma_comb2_zero(uz * cx - ux * cz, uz * bx - ux * bz, bx, -cx);
        lemma_cancel(ux, bz * cx - bx * cz);
        lemma_exp_rf(ux, bx, cy, by, cx);
        lemma_exp_lm(bx, ux, cy, uy, cx);
        lemma_exp_ll(-cx, ux, by, uy, bx);
        lemma_comb2_zero(ux * cy - uy * cx, ux * by - uy * bx, bx, -cx);
        lemma_cancel(ux, bx * cy - by * cx);
    } else if uy != 0 {
        lemma_exp_rf(uy, by, cz, bz, cy);
        lemma_exp_lm(by, uy, cz, uz, cy);
        lemma_exp_ll(-cy, uy, bz, uz, by);
        lemma_comb2_zero(uy * cz - uz * cy, uy * bz - uz * by, by, -cy);
        lemma_cancel(uy, by * cz - bz * cy);
        lemma_exp_rf(uy, bz, cx, bx, cz);
        lemma_exp_ll(cx, uy, bz, uz, by);
        lemma_exp_ll(cz, ux, by, uy, bx);
        lemma_exp_lm(by, uz, cx, ux, cz);
        lemma_comb3_zero(uy * bz - uz * by, ux * by - uy * bx, uz * cx - ux * cz, cx, cz, by);
        lemma_cancel(uy, bz * cx - bx * cz);
        lemma_exp_rf(uy, bx, cy, by, cx);
        lemma_exp_lm(by, ux, cy, uy, cx);
        lemma_exp_ll(-cy, ux, by, uy, bx);
        lemma_comb2_zero(ux * cy - uy * cx, ux * by - uy * bx, by, -cy);
        lemma_cancel(uy, bx * cy - by * cx);
    } else {
        lemma_exp_rf(uz, by, cz, bz, cy);
        lemma_exp_lm(bz, uy, cz, uz, cy);
        lemma_exp_ll(-cz, uy, bz, uz, by);
        lemma_comb2_zero(uy * cz - uz * cy, uy * bz - uz * by, bz, -cz);
        lemma_cancel(uz, by * cz - bz * cy);
        lemma_exp_rf(uz, bz, cx, bx, cz);
        lemma_exp_lm(bz, uz, cx, ux, cz);
        lemma_exp_ll(-cz, uz, bx, ux, bz);
        lemma_comb2_zero(uz * cx - ux * cz, uz * bx - ux * bz, bz, -cz);
        lemma_cancel(uz, bz * cx - bx * cz);
        lemma_exp_rf(uz, bx, cy, by, cx);
        lemma_exp_ll(cy, uz, bx, ux, bz);
        lemma_exp_ll(cx, uy, bz, uz, by);
        lemma_exp_lm(bz, ux, cy, uy, cx);
        lemma_comb3_zero(uz * bx - ux * bz, uy * bz - uz * by, ux * cy - uy * cx, cy, cx, bz);
        lemma_cancel(uz, bx * cy - by * cx);
    }
}

/// The scalar triple product equals the cross product of the first two
/// vectors dotted with the third.
proof fn lemma_triple_as_cross_dot(
    ax: int,
    ay: int,
    az: int,
    bx: int,
    by: int,
    bz: int,
    cx: int,
    cy: int,
    cz: int,
)
    ensures
        det3(ax, ay, az, bx, by, bz, cx, cy, cz) == (ay * bz - az * by) * cx + (az * bx - ax * bz)
            * cy + (ax * by - ay * bx) * cz,
{
    lemma_exp_lf(ax, by, cz, bz, cy);
    lemma_exp_lf(ay, bz, cx, bx, cz);
    lemma_exp_lf(az, bx, cy, by, cx);
    lemma_exp_rl(cx, ay, bz, az, by);
    lemma_exp_rl(cy, az, bx, ax, bz);
    lemma_exp_rl(cz, ax, by, ay, bx);
}

/// A vector parallel to a non-zero vector `n` is orthogonal to everything
/// `n` is orthogonal to.
proof fn lemma_parallel_orthogonal(
    nx: int,
    ny: int,
    nz: int,
    mx: int,
    my: int,
    mz: int,
    cx: int,
    cy: int,
    cz: int,
)
    requires
        !(nx == 0 && ny == 0 && nz == 0),
        ny * mz - nz * my == 0,
        nz * mx - nx * mz == 0,
        nx * my - ny * mx == 0,
        nx * cx + ny * cy + nz * cz == 0,
    ensures
        mx * cx + my * cy + mz * cz == 0,
{
    if nx != 0 {
        lemma_dot_rf(nx, mx, cx, my, cy, mz, cz);
        lemma_dot_lm(mx, nx, cx, ny, cy, nz, cz);
        lemma_exp_ll(cy, nx, my, ny, mx);
        lemma_exp_ll(-cz, nz, mx, nx, mz);
        lemma_comb3_zero(
            nx * cx + ny * cy + nz * cz,
            nx * my - ny * mx,
            nz * mx - nx * mz,
            mx,
            cy,
            -cz,
        );
        lemma_cancel(nx, mx * cx + my * cy + mz * cz);
    } else if ny != 0 {
        lemma_dot_rf(ny, mx, cx, my, cy, mz, cz);
        lemma_dot_lm(my, nx, cx, ny, cy, nz, cz);
        lemma_exp_ll(cz, ny, mz, nz, my);
        lemma_exp_ll(-cx, nx, my, ny, mx);
        lemma_comb3_zero(
            nx * cx + ny * cy + nz * cz,
            ny * mz - nz * my,
            nx * my - ny * mx,
            my,
            cz,
            -cx,
        );
        lemma_cancel(ny, mx * cx + my * cy + mz * cz);
    } else {
        lemma_dot_rf(nz, mx, cx, my, cy, mz, cz);
        lemma_dot_lm(mz, nx, cx, ny, cy, nz, cz);
        lemma_exp_ll(cx, nz, mx, nx, mz);
        lemma_exp_ll(-cy, ny, mz, nz, my);
        lemma_comb3_zero(
            nx * cx + ny * cy + nz * cz,
            nz * mx - nx * mz,
            ny * mz - nz * my,
            mz,
            cx,
            -cy,
        );
        lemma_cancel(nz, mx * cx + my * cy + mz * cz);
    }
}

/// One component of cross(n, cross(a, b)) == a * (n . b) - b * (n . a):
/// when both dot products vanish, so does the component.
proof fn lemma_bac_cab_component(
    n1: int,
    n2: int,
    n3: int,
    a1: int,
    a2: int,
    a3: int,
    b1: int,
    b2: int,
    b3: int,
)
    requires
        n1 * a1 + n2 * a2 + n3 * a3 == 0,
        n1 * b1 + n2 * b2 + n3 * b3 == 0,
    ensures
        n2 * (a1 * b2 - a2 * b1) - n3 * (a3 * b1 - a1 * b3) == 0,
{
    lemma_exp_lf(n2, a1, b2, a2, b1);
    lemma_exp_lf(n3, a3, b1, a1, b3);
    lemma_dot_lm(a1, n1, b1, n2, b2, n3, b3);
    lemma_dot_ll(b1, n1, a1, n2, a2, n3, a3);
    lemma_comb2_zero_sub(n1 * b1 + n2 * b2 + n3 * b3, n1 * a1 + n2 * a2 + n3 * a3, a1, b1);
}

/// Three vectors orthogonal to one non-zero vector lie in one plane: their
/// determinant vanishes.
proof fn lemma_plane_det_zero(
    nx: int,
    ny: int,
    nz: int,
    ax: int,
    ay: int,
    az: int,
    bx: int,
    by: int,
    bz: int,
    cx: int,
    cy: int,
    cz: int,
)
    requires
        !(nx == 0 && ny == 0 && nz == 0),
        nx * ax + ny * ay + nz * az == 0,
        nx * bx + ny * by + nz * bz == 0,
        nx * cx + ny * cy + nz * cz == 0,
    ensures
        det3(ax, ay, az, bx, by, bz, cx, cy, cz) == 0,
{
    // cross(n, cross(a, b)) == a * (n . b) - b * (n . a), which vanishes
    // here, so cross(a, b) is parallel to n and orthogonal to c; the three
    // components come from the same identity under cyclic renaming
    lemma_bac_cab_component(nx, ny, nz, ax, ay, az, bx, by, bz);
    lemma_bac_cab_component(ny, nz, nx, ay, az, ax, by, bz, bx);
    lemma_bac_cab_component(nz, nx, ny, az, ax, ay, bz, bx, by);
    lemma_parallel_orthogonal(
        nx,
        ny,
        nz,
        ay * bz - az * by,
        az * bx - ax * bz,
        ax * by - ay * bx,
        cx,
        cy,
        cz,
    );
    lemma_triple_as_cross_dot(ax, ay, az, bx, by, bz, cx, cy, cz);
}

/// x component of the cross product of `a - p0` and `q - p0`.
pub open spec fn crx(p0: Vec3, a: Vec3, q: Vec3) -> int {
    (a.y - p0.y) * (q.z - p0.z) - (a.z - p0.z) * (q.y - p0.y)
}

/// y component of the cross product of `a - p0` and `q - p0`.
pub open spec fn cry(p0: Vec3, a: Vec3, q: Vec3) -> int {
    (a.z - p0.z) * (q.x - p0.x) - (a.x - p0.x) * (q.z - p0.z)
}

/// z component of the cross product of `a - p0` and `q - p0`.
pub open spec fn crz(p0: Vec3, a: Vec3, q: Vec3) -> int {
    (a.x - p0.x) * (q.y - p0.y) - (a.y - p0.y) * (q.x - p0.x)
}

/// The cross product of `a - p0` and `b - p0`, dotted with `q - p0`.
pub open spec fn plane_dot(p0: Vec3, a: Vec3, b: Vec3, q: Vec3) -> int {
    crx(p0, a, b) * (q.x - p0.x) + cry(p0, a, b) * (q.y - p0.y) + crz(p0, a, b) * (q.z - p0.z)
}

/// Double the largest world coordinate: a bound on every difference of two
/// world coordinates.
pub const DIFF_BOUND: i64 = 549755813888;

/// Compute the cross product of `a - p0` and `q - p0` exactly.
fn cross_of_diffs(p0: Vec3, a: Vec3, q: Vec3) -> (r: (i128, i128, i128))
    requires
        bounded(p0, WORLD_BOUND as int),
        bounded(a, WORLD_BOUND as int),
        bounded(q, WORLD_BOUND as int),
    ensures
        r.0 == crx(p0, a, q),
        r.1 == cry(p0, a, q),
        r.2 == crz(p0, a, q),
{
    let ux = a.x as i128 - p0.x as i128;
    let uy = a.y as i128 - p0.y as i128;
    let uz = a.z as i128 - p0.z as i128;
    let qx = q.x as i128 - p0.x as i128;
    let qy = q.y as i128 - p0.y as i128;
    let qz = q.z as i128 - p0.z as i128;
    proof {
        lemma_mul_bound(uy as int, qz as int, DIFF_BOUND as int, DIFF_BOUND as int);
        lemma_mul_bound(uz as int, qy as int, DIFF_BOUND as int, DIFF_BOUND as int);
        lemma_mul_bound(uz as int, qx as int, DIFF_BOUND as int, DIFF_BOUND as int);
        lemma_mul_bound(ux as int, qz as int, DIFF_BOUND as int, DIFF_BOUND as int);
        lemma_mul_bound(ux as int, qy as int, DIFF_BOUND as int, DIFF_BOUND as int);
        lemma_mul_bound(uy as int, qx as int, DIFF_BOUND as int, DIFF_BOUND as int);
    }
    (uy * qz - uz * qy, uz * qx - ux * qz, ux * qy - uy * qx)
}

/// A bound on every component of such a cross product.
pub const CROSS_BOUND: i128 = 604462909807314587353088;

proof fn lemma_cross_bounded(p0: Vec3, a: Vec3, q: Vec3)
    requires
        bounded(p0, WORLD_BOUND as int),
        bounded(a, WORLD_BOUND as int),
        bounded(q, WORLD_BOUND as int),
    ensures
        -CROSS_BOUND <= crx(p0, a, q) <= CROSS_BOUND,
        -CROSS_BOUND <= cry(p0, a, q) <= CROSS_BOUND,
        -CROSS_BOUND <= crz(p0, a, q) <= CROSS_BOUND,
{
    lemma_mul_bound(a.y - p0.y, q.z - p0.z, DIFF_BOUND as int, DIFF_BOUND as int);
    lemma_mul_bound(a.z - p0.z, q.y - p0.y, DIFF_BOUND as int, DIFF_BOUND as int);
    lemma_mul_bound(a.z - p0.z, q.x - p0.x, DIFF_BOUND as int, DIFF_BOUND as int);
    lemma_mul_bound(a.x - p0.x, q.z - p0.z, DIFF_BOUND as int, DIFF_BOUND as int);
    lemma_mul_bound(a.x - p0.x, q.y - p0.y, DIFF_BOUND as int, DIFF_BOUND as int);
    lemma_mul_bound(a.y - p0.y, q.x - p0.x, DIFF_BOUND as int, DIFF_BOUND as int);
}

/// Compute `plane_dot` exactly.
fn plane_dot_exec(p0: Vec3, a: Vec3, b: Vec3, q: Vec3) -> (r: i128)
    requires
        bounded(p0, WORLD_BOUND as int),
        bounded(a, WORLD_BOUND as int),
        bounded(b, WORLD_BOUND as int),
        bounded(q, WORLD_BOUND as int),
    ensures
        r == plane_dot(p0, a, b, q),
{
    let (nx, ny, nz) = cross_of_diffs(p0, a, b);
    let qx = q.x as i128 - p0.x as i128;
    let qy = q.y as i128 - p0.y as i128;
    let qz = q.z as i128 - p0.z as i128;
    proof {
        lemma_cross_bounded(p0, a, b);
        lemma_mul_bound(nx as int, qx as int, CROSS_BOUND as int, DIFF_BOUND as int);
        lemma_mul_bound(ny as int, qy as int, CROSS_BOUND as int, DIFF_BOUND as int);
        lemma_mul_bound(nz as int, qz as int, CROSS_BOUND as int, DIFF_BOUND as int);
    }
    nx * qx + ny * qy + nz * qz
}

/// Decide whether a world point set spans a volume: look for a point off
/// the base point, then one off their common line, then one off their
/// common plane. The search is complete: when a stage finds nothing, every
/// determinant over the set vanishes.
pub fn points_span_volume(points: &Vec<Vec3>) -> (r: bool)
    requires
        world_bounded(points@),
    ensures
        r == spans_volume(points@),
{
    let ghost ps = points@;
    let n = points.len();
    if n == 0 {
        return false;
    }
    let p0 = points[0];
    // stage 1: a point distinct from the base point
    let mut a: usize = 0;
    let mut i: usize = 1;
    while i < n && a == 0
        invariant
            ps == points@,
            n == ps.len(),
            1 <= i <= n,
            ps[0] == p0,
            a == 0 ==> forall|j: int| 0 <= j < i ==> ps[j] == p0,
            a != 0 ==> a < n && ps[a as int] != p0,
        decreases n - i,
    {
        let q = points[i];
        if q.x != p0.x || q.y != p0.y || q.z != p0.z {
            a = i;
        }
        i += 1;
    }
    if a == 0 {
        proof {
            assert forall|j: int, k: int, l: int|
                0 <= j < ps.len() && 0 <= k < ps.len() && 0 <= l < ps.len() implies point_det(
                ps[0],
                ps[j],
                ps[k],
                ps[l],
            ) == 0 by {
                assert(ps[j] == p0 && ps[k] == p0 && ps[l] == p0);
            }
        }
        return false;
    }
    let pa = points[a];
    // stage 2: a point off the line through the base point and `pa`
    let mut b: usize = 0;
    let mut found_b = false;
    let mut i2: usize = 0;
    while i2 < n && !found_b
        invariant
            ps == points@,
            n == ps.len(),
            0 <= i2 <= n,
            world_bounded(ps),
            ps[0] == p0,
            bounded(p0, WORLD_BOUND as int),
            bounded(pa, WORLD_BOUND as int),
            a < n,
            ps[a as int] == pa,
            pa != p0,
            !found_b ==> forall|j: int|
                0 <= j < i2 ==> crx(p0, pa, #[trigger] ps[j]) == 0 && cry(p0, pa, ps[j]) == 0
                    && crz(p0, pa, ps[j]) == 0,
            found_b ==> b < n && !(crx(p0, pa, ps[b as int]) == 0 && cry(p0, pa, ps[b as int])
                == 0 && crz(p0, pa, ps[b as int]) == 0),
        decreases n - i2,
    {
        let (c1, c2, c3) = cross_of_diffs(p0, pa, points[i2]);
        if c1 != 0 || c2 != 0 || c3 != 0 {
            b = i2;
            found_b = true;
        }
        i2 += 1;
    }
    if !found_b {
        proof {
            assert forall|j: int, k: int, l: int|
                0 <= j < ps.len() && 0 <= k < ps.len() && 0 <= l < ps.len() implies point_det(
                ps[0],
                ps[j],
                ps[k],
                ps[l],
            ) == 0 by {
                lemma_parallel_pair(
                    pa.x - p0.x,
                    pa.y - p0.y,
                    pa.z - p0.z,
                    ps[k].x - p0.x,
                    ps[k].y - p0.y,
                    ps[k].z - p0.z,
                    ps[l].x - p0.x,
                    ps[l].y - p0.y,
                    ps[l].z - p0.z,
                );
            }
        }
        return false;
    }
    let pb = points[b];
    // stage 3: a point off the plane through the base point, `pa` and `pb`
    let mut i3: usize = 0;
    while i3 < n
        invariant
            ps == points@,
            n == ps.len(),
            0 <= i3 <= n,
            world_bounded(ps),
            ps[0] == p0,
            bounded(p0, WORLD_BOUND as int),
            bounded(pa, WORLD_BOUND as int),
            bounded(pb, WORLD_BOUND as int),
            a < n && b < n,
            ps[a as int] == pa,
            ps[b as int] == pb,
            pa != p0,
            !(crx(p0, pa, pb) == 0 && cry(p0, pa, pb) == 0 && crz(p0, pa, pb) == 0),
            forall|j: int| 0 <= j < i3 ==> plane_dot(p0, pa, pb, #[trigger] ps[j]) == 0,
        decreases n - i3,
    {
        let d = plane_dot_exec(p0, pa, pb, points[i3]);
        if d != 0 {
            proof {
                lemma_triple_as_cross_dot(
                    pa.x - p0.x,
                    pa.y - p0.y,
                    pa.z - p0.z,
                    pb.x - p0.x,
                    pb.y - p0.y,
                    pb.z - p0.z,
                    ps[i3 as int].x - p0.x,
                    ps[i3 as int].y - p0.y,
                    ps[i3 as int].z - p0.z,
                );
                assert(point_det(ps[0], ps[a as int], ps[b as int], ps[i3 as int]) != 0);
            }
            return true;
        }
        i3 += 1;
    }
    proof {
        assert forall|j: int, k: int, l: int|
            0 <= j < ps.len() && 0 <= k < ps.len() && 0 <= l < ps.len() implies point_det(
            ps[0],
            ps[j],
            ps[k],
            ps[l],
        ) == 0 by {
            lemma_plane_det_zero(
                crx(p0, pa, pb),
                cry(p0, pa, pb),
                crz(p0, pa, pb),
                ps[j].x - p0.x,
                ps[j].y - p0.y,
                ps[j].z - p0.z,
                ps[k].x - p0.x,
                ps[k].y - p0.y,
                ps[k].z - p0.z,
                ps[l].x - p0.x,
                ps[l].y - p0.y,
                ps[l].z - p0.z,
            );
        }
    }
    false
}

/// One convex sub-shape: the minimal convex boundary over a world point
/// set that spans a volume. The set of generating points determines the
/// shape; computing its boundary is the physics engine's work.
pub struct ConvexShape {
    pub points: Vec<Vec3>,
}

impl View for ConvexShape {
    type V = Seq<Vec3>;

    open spec fn view(&self) -> Seq<Vec3> {
        self.points@
    }
}

impl ConvexShape {
    /// Build a convex shape over a world point set. Fails exactly when the
    /// set is degenerate: fewer than four non-coplanar points.
    pub fn try_new(points: Vec<Vec3>) -> (r: Option<ConvexShape>)
        requires
            world_bounded(points@),
        ensures
            r matches Some(s) ==> s@ == points@ && spans_volume(points@),
            r is None <==> is_degenerate(points@),
    {
        if points_span_volume(&points) {
            Some(ConvexShape { points })
        } else {
            None
        }
    }

    /// An independent copy of the shape.
    pub fn deep_copy(&self) -> (r: ConvexShape)
        ensures
            r@ == self@,
    {
        let mut out: Vec<Vec3> = Vec::new();
        let mut i: usize = 0;
        while i < self.points.len()
            invariant
                0 <= i <= self.points@.len(),
                out@.len() == i,
                forall|j: int| 0 <= j < i ==> out@[j] == self.points@[j],
            decreases self.points@.len() - i,
        {
            out.push(self.points[i]);
            i += 1;
        }
        proof {
            assert(out@ =~= self.points@);
        }
        ConvexShape { points: out }
    }
}

/// A compound collision shape scoped to one scene asset: one convex
/// sub-shape per hull mesh, each placed at zero offset and identity
/// rotation relative to the asset's root.
pub struct CompoundShape {
    pub shapes: Vec<ConvexShape>,
}

impl View for CompoundShape {
    type V = Seq<Seq<Vec3>>;

    open spec fn view(&self) -> Seq<Seq<Vec3>> {
        Seq::new(self.shapes@.len(), |i: int| self.shapes@[i]@)
    }
}

impl CompoundShape {
    /// An independent copy of the whole compound shape.
    pub fn deep_copy(&self) -> (r: CompoundShape)
        ensures
            r@ == self@,
    {
        let mut out: Vec<ConvexShape> = Vec::new();
        let mut i: usize = 0;
        while i < self.shapes.len()
            invariant
                0 <= i <= self.shapes@.len(),
                out@.len() == i,
                forall|j: int| 0 <= j < i ==> #[trigger] out@[j]@ == self.shapes@[j]@,
            decreases self.shapes@.len() - i,
        {
            out.push(self.shapes[i].deep_copy());
            i += 1;
        }
        proof {
            assert(out@.len() == self.shapes@.len());
            assert forall|i: int| 0 <= i < out@.len() implies (CompoundShape { shapes: out })@[i]
                == self@[i] by {}
            assert((CompoundShape { shapes: out })@ =~= self@);
        }
        CompoundShape { shapes: out }
    }
}

} // verus!
