//! Integer 3D vectors and affine transforms.
//!
//! All geometry in the core is fixed-point: a coordinate is an `i64` number
//! of length units. The bounds below keep every product and sum the core
//! computes inside `i64` (and inside `i128` for determinants).

use vstd::prelude::*;

verus! {

/// Largest magnitude of a mesh-local coordinate, of an affine transform
/// entry, of a fire direction component and of a nominal speed.
pub const LOCAL_BOUND: i64 = 262144;

/// Largest magnitude of a world-space coordinate: a transformed point is a
/// dot product of three `LOCAL_BOUND`-bounded pairs plus a translation, so
/// it stays below this.
pub const WORLD_BOUND: i64 = 274877906944;

/// Largest magnitude of an inherited velocity component.
pub const VELOCITY_BOUND: i64 = 137438953472;

/// Largest frame step and largest nominal fire interval, in time units.
pub const TIME_BOUND: i64 = 16777216;

/// A 3D point or vector with fixed-point integer coordinates.
#[derive(Clone, Copy, PartialEq, Eq, Structural, Debug)]
pub struct Vec3 {
    pub x: i64,
    pub y: i64,
    pub z: i64,
}

/// Every coordinate of `v` has magnitude at most `bound`.
pub open spec fn bounded(v: Vec3, bound: int) -> bool {
    -bound <= v.x <= bound && -bound <= v.y <= bound && -bound <= v.z <= bound
}

/// An affine transform: a 3x3 linear part (rows `x*`, `y*`, `z*`) composed
/// with a translation, exactly what a node's translation, rotation and scale
/// combine into.
#[derive(Clone, Copy, PartialEq, Eq, Structural, Debug)]
pub struct Affine {
    pub xx: i64,
    pub xy: i64,
    pub xz: i64,
    pub yx: i64,
    pub yy: i64,
    pub yz: i64,
    pub zx: i64,
    pub zy: i64,
    pub zz: i64,
    pub tx: i64,
    pub ty: i64,
    pub tz: i64,
}

/// Every entry of the transform has magnitude at most `LOCAL_BOUND`.
pub open spec fn affine_wf(a: Affine) -> bool {
    &&& -LOCAL_BOUND <= a.xx <= LOCAL_BOUND
    &&& -LOCAL_BOUND <= a.xy <= LOCAL_BOUND
    &&& -LOCAL_BOUND <= a.xz <= LOCAL_BOUND
    &&& -LOCAL_BOUND <= a.yx <= LOCAL_BOUND
    &&& -LOCAL_BOUND <= a.yy <= LOCAL_BOUND
    &&& -LOCAL_BOUND <= a.yz <= LOCAL_BOUND
    &&& -LOCAL_BOUND <= a.zx <= LOCAL_BOUND
    &&& -LOCAL_BOUND <= a.zy <= LOCAL_BOUND
    &&& -LOCAL_BOUND <= a.zz <= LOCAL_BOUND
    &&& -LOCAL_BOUND <= a.tx <= LOCAL_BOUND
    &&& -LOCAL_BOUND <= a.ty <= LOCAL_BOUND
    &&& -LOCAL_BOUND <= a.tz <= LOCAL_BOUND
}

/// The x coordinate of `a` applied to `p`, as unbounded arithmetic.
pub open spec fn transformed_x(a: Affine, p: Vec3) -> int {
    a.xx * p.x + a.xy * p.y + a.xz * p.z + a.tx
}

/// The y coordinate of `a` applied to `p`.
pub open spec fn transformed_y(a: Affine, p: Vec3) -> int {
    a.yx * p.x + a.yy * p.y + a.yz * p.z + a.ty
}

/// The z coordinate of `a` applied to `p`.
pub open spec fn transformed_z(a: Affine, p: Vec3) -> int {
    a.zx * p.x + a.zy * p.y + a.zz * p.z + a.tz
}

/// `r` is exactly `a` applied to `p`.
pub open spec fn is_transformed(r: Vec3, a: Affine, p: Vec3) -> bool {
    r.x == transformed_x(a, p) && r.y == transformed_y(a, p) && r.z == transformed_z(a, p)
}

/// A product of two bounded factors is bounded by the product of the bounds.
pub proof fn lemma_mul_bound(x: int, y: int, bx: int, by: int)
    by (nonlinear_arith)
    requires
        -bx <= x <= bx,
        -by <= y <= by,
        0 <= bx,
        0 <= by,
    ensures
        -(bx * by) <= x * y <= bx * by,
{
}

impl Affine {
    /// The identity transform.
    pub fn identity() -> (r: Affine)
        ensures
            affine_wf(r),
            forall|p: Vec3| is_transformed(p, r, p),
    {
        Affine {
            xx: 1,
            xy: 0,
            xz: 0,
            yx: 0,
            yy: 1,
            yz: 0,
            zx: 0,
            zy: 0,
            zz: 1,
            tx: 0,
            ty: 0,
            tz: 0,
        }
    }

    /// Apply the transform to a mesh-local point, yielding a world point.
    pub fn transform_point(&self, p: Vec3) -> (r: Vec3)
        requires
            affine_wf(*self),
            bounded(p, LOCAL_BOUND as int),
        ensures
            is_transformed(r, *self, p),
            bounded(r, WORLD_BOUND as int),
    {
        proof {
            lemma_mul_bound(self.xx as int, p.x as int, LOCAL_BOUND as int, LOCAL_BOUND as int);
            lemma_mul_bound(self.xy as int, p.y as int, LOCAL_BOUND as int, LOCAL_BOUND as int);
            lemma_mul_bound(self.xz as int, p.z as int, LOCAL_BOUND as int, LOCAL_BOUND as int);
            lemma_mul_bound(self.yx as int, p.x as int, LOCAL_BOUND as int, LOCAL_BOUND as int);
            lemma_mul_bound(self.yy as int, p.y as int, LOCAL_BOUND as int, LOCAL_BOUND as int);
            lemma_mul_bound(self.yz as int, p.z as int, LOCAL_BOUND as int, LOCAL_BOUND as int);
            lemma_mul_bound(self.zx as int, p.x as int, LOCAL_BOUND as int, LOCAL_BOUND as int);
            lemma_mul_bound(self.zy as int, p.y as int, LOCAL_BOUND as int, LOCAL_BOUND as int);
            lemma_mul_bound(self.zz as int, p.z as int, LOCAL_BOUND as int, LOCAL_BOUND as int);
        }
        Vec3 {
            x: self.xx * p.x + self.xy * p.y + self.xz * p.z + self.tx,
            y: self.yx * p.x + self.yy * p.y + self.yz * p.z + self.ty,
            z: self.zx * p.x + self.zy * p.y + self.zz * p.z + self.tz,
        }
    }
}

} // verus!
