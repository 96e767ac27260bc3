//! Extraction of point sets from mesh vertex data.
//!
//! A mesh's position attribute arrives either as a flat coordinate stream
//! (`x, y, z, x, y, z, ...`) or already grouped into points; any other
//! encoding yields no geometry and the mesh is skipped.

use vstd::prelude::*;

use crate::math::Affine;
use crate::math::LOCAL_BOUND;
use crate::math::Vec3;
use crate::math::WORLD_BOUND;
use crate::math::affine_wf;
use crate::math::bounded;
use crate::math::is_transformed;

verus! {

/// A mesh's vertex-position attribute, as the loader hands it over.
pub enum VertexPositions {
    /// A flat interleaved stream of coordinates: x, y, z, x, y, z, ...
    Flat(Vec<i64>),
    /// One point per vertex, already grouped.
    Grouped(Vec<Vec3>),
    /// Any encoding the extractor does not understand.
    Unsupported,
}

/// A mesh as the core reads it: its position attribute, if it has one.
pub struct MeshData {
    pub positions: Option<VertexPositions>,
}

/// The `i`-th triple of a flat coordinate stream, as a point.
pub open spec fn triple_at(s: Seq<i64>, i: int) -> Vec3 {
    Vec3 { x: s[3 * i], y: s[3 * i + 1], z: s[3 * i + 2] }
}

/// A flat coordinate stream regrouped into points.
pub open spec fn triples_of(s: Seq<i64>) -> Seq<Vec3> {
    Seq::new((s.len() / 3) as nat, |i: int| triple_at(s, i))
}

/// What extraction yields on `m`: `None` when the position attribute is
/// absent or in an unsupported encoding.
pub open spec fn spec_extracted(m: MeshData) -> Option<Seq<Vec3>> {
    match m.positions {
        Option::None => Option::None,
        Option::Some(VertexPositions::Flat(s)) => Option::Some(triples_of(s@)),
        Option::Some(VertexPositions::Grouped(ps)) => Option::Some(ps@),
        Option::Some(VertexPositions::Unsupported) => Option::None,
    }
}

/// A well-formed mesh: a flat stream holds whole triples, and every
/// coordinate is a mesh-local coordinate.
pub open spec fn mesh_wf(m: MeshData) -> bool {
    match m.positions {
        Option::None => true,
        Option::Some(VertexPositions::Flat(s)) => s@.len() % 3 == 0 && forall|i: int|
            0 <= i < s@.len() ==> -LOCAL_BOUND <= #[trigger] s@[i] <= LOCAL_BOUND,
        Option::Some(VertexPositions::Grouped(ps)) => forall|i: int|
            0 <= i < ps@.len() ==> bounded(#[trigger] ps@[i], LOCAL_BOUND as int),
        Option::Some(VertexPositions::Unsupported) => true,
    }
}

/// Every point of the extracted set is a mesh-local coordinate.
pub open spec fn extracted_bounded(ps: Seq<Vec3>) -> bool {
    forall|i: int| 0 <= i < ps.len() ==> bounded(#[trigger] ps[i], LOCAL_BOUND as int)
}

/// Pull the point set out of a mesh's position attribute. Yields `None`,
/// and the caller skips the mesh, when the attribute is absent or in an
/// encoding the core does not understand.
pub fn extract_mesh_vertices(m: &MeshData) -> (r: Option<Vec<Vec3>>)
    requires
        mesh_wf(*m),
    ensures
        r is Some <==> spec_extracted(*m) is Some,
        r matches Some(v) ==> spec_extracted(*m) == Some(v@) && extracted_bounded(v@),
{
    match &m.positions {
        Option::None => Option::None,
        Option::Some(VertexPositions::Unsupported) => Option::None,
        Option::Some(VertexPositions::Grouped(ps)) => {
            let mut out: Vec<Vec3> = Vec::new();
            let mut i: usize = 0;
            while i < ps.len()
                invariant
                    0 <= i <= ps@.len(),
                    out@.len() == i,
                    forall|j: int| 0 <= j < i ==> out@[j] == ps@[j],
                    mesh_wf(*m),
                    m.positions matches Some(VertexPositions::Grouped(q)) && q@ == ps@,
                decreases ps@.len() - i,
            {
                out.push(ps[i]);
                i += 1;
            }
            proof {
                assert(out@ =~= ps@);
            }
            Option::Some(out)
        },
        Option::Some(VertexPositions::Flat(s)) => {
            let n = s.len() / 3;
            proof {
                assert(s@.len() == 3 * n);
            }
            let len = s.len();
            let mut out: Vec<Vec3> = Vec::new();
            let mut i: usize = 0;
            let mut k: usize = 0;
            while i < n
                invariant
                    0 <= i <= n,
                    k == 3 * i,
                    len == s@.len(),
                    s@.len() == 3 * n,
                    out@.len() == i,
                    forall|j: int| 0 <= j < i ==> out@[j] == triple_at(s@, j),
                    mesh_wf(*m),
                    m.positions matches Some(VertexPositions::Flat(t)) && t@ == s@,
                decreases n - i,
            {
                let p = Vec3 { x: s[k], y: s[k + 1], z: s[k + 2] };
                out.push(p);
                i += 1;
                k += 3;
            }
            proof {
                assert(out@ =~= triples_of(s@));
            }
            Option::Some(out)
        },
    }
}

/// Apply one node's transform to a whole point set, carrying it from
/// mesh-local space into world space.
pub fn transform_points(a: &Affine, pts: &Vec<Vec3>) -> (r: Vec<Vec3>)
    requires
        affine_wf(*a),
        extracted_bounded(pts@),
    ensures
        r@.len() == pts@.len(),
        forall|i: int| 0 <= i < pts@.len() ==> is_transformed(#[trigger] r@[i], *a, pts@[i]),
        forall|i: int| 0 <= i < pts@.len() ==> bounded(#[trigger] r@[i], WORLD_BOUND as int),
{
    let mut out: Vec<Vec3> = Vec::new();
    let mut i: usize = 0;
    while i < pts.len()
        invariant
            0 <= i <= pts@.len(),
            out@.len() == i,
            affine_wf(*a),
            extracted_bounded(pts@),
            forall|j: int| 0 <= j < i ==> is_transformed(#[trigger] out@[j], *a, pts@[j]),
            forall|j: int| 0 <= j < i ==> bounded(#[trigger] out@[j], WORLD_BOUND as int),
        decreases pts@.len() - i,
    {
        out.push(a.transform_point(pts[i]));
        i += 1;
    }
    out
}

} // verus!
