//! The collider synthesis pass.
//!
//! Runs once per scene asset, after loading ends: locate the hull nodes,
//! pull each hull's mesh-bearing children through the hull's own transform
//! into world space, validate each world point set, cache one compound
//! shape per scene that produced any, and remove every hull subtree from
//! the graph. Degenerate geometry is fatal for the pass and is reported
//! before anything is altered; a mesh in an unsupported encoding is merely
//! skipped.

use vstd::prelude::*;

use crate::cache::ColliderCache;
use crate::cache::cache_wf;
use crate::geometry::MeshData;
use crate::geometry::extract_mesh_vertices;
use crate::geometry::mesh_wf;
use crate::geometry::spec_extracted;
use crate::geometry::transform_points;
use crate::math::Affine;
use crate::math::Vec3;
use crate::math::transformed_x;
use crate::math::transformed_y;
use crate::math::transformed_z;
use crate::names::is_hull_name;
use crate::scene::Scene;
use crate::scene::SceneNode;
use crate::scene::hull_indices;
use crate::scene::hull_indices_upto;
use crate::scene::is_hull_node;
use crate::scene::lemma_hull_indices_sound;
use crate::scene::locate_hulls;
use crate::scene::node_wf;
use crate::scene::parents_precede;
use crate::scene::remove_hull_subtrees;
use crate::scene::scene_wf;
use crate::scene::under_hull;
use crate::shape::CompoundShape;
use crate::shape::ConvexShape;
use crate::shape::is_degenerate;
use crate::shape::spans_volume;

verus! {

/// Degenerate hull geometry: fatal for the whole pass, treated as corrupt
/// content rather than a recoverable runtime condition.
#[derive(Clone, Copy, PartialEq, Eq, Structural, Debug)]
pub enum SynthesisError {
    DegenerateGeometry,
}

/// Node `j` is a direct mesh-bearing child of node `h`.
pub open spec fn is_mesh_child(ns: Seq<SceneNode>, j: int, h: int) -> bool {
    &&& ns[j].alive
    &&& ns[j].parent matches Some(p) && p == h
    &&& ns[j].mesh is Some
}

/// A point set carried through an affine transform, pointwise.
pub open spec fn transformed_seq(a: Affine, pts: Seq<Vec3>) -> Seq<Vec3> {
    Seq::new(
        pts.len(),
        |i: int|
            Vec3 {
                x: transformed_x(a, pts[i]) as i64,
                y: transformed_y(a, pts[i]) as i64,
                z: transformed_z(a, pts[i]) as i64,
            },
    )
}

/// The world point set that the pair (hull `h`, child `j`) produces: the
/// child's extracted mesh geometry under the hull node's own transform.
/// Children are taken as co-located with the hull root, so only the hull's
/// transform is composed, not the full ancestor chain.
pub open spec fn pair_set(ns: Seq<SceneNode>, meshes: Seq<MeshData>, h: int, j: int) -> Option<
    Seq<Vec3>,
> {
    if is_mesh_child(ns, j, h) {
        match ns[j].mesh {
            Option::Some(m) => match spec_extracted(meshes[m as int]) {
                Option::Some(pts) => Option::Some(transformed_seq(ns[h].transform, pts)),
                Option::None => Option::None,
            },
            Option::None => Option::None,
        }
    } else {
        Option::None
    }
}

/// The world point sets of hull `h` over its children among the first `n`
/// nodes, in child index order.
pub open spec fn hull_sets_upto(
    ns: Seq<SceneNode>,
    meshes: Seq<MeshData>,
    h: int,
    n: int,
) -> Seq<Seq<Vec3>>
    decreases n,
{
    if n <= 0 {
        Seq::empty()
    } else {
        hull_sets_upto(ns, meshes, h, n - 1) + match pair_set(ns, meshes, h, n - 1) {
            Option::Some(s) => seq![s],
            Option::None => Seq::empty(),
        }
    }
}

/// The world point sets of the first `k` located hulls, hull by hull.
pub open spec fn hulls_sets(
    ns: Seq<SceneNode>,
    meshes: Seq<MeshData>,
    hs: Seq<int>,
    k: int,
) -> Seq<Seq<Vec3>>
    decreases k,
{
    if k <= 0 {
        Seq::empty()
    } else {
        hulls_sets(ns, meshes, hs, k - 1) + hull_sets_upto(ns, meshes, hs[k - 1], ns.len() as int)
    }
}

/// Every world point set the scene produces, in synthesis order.
pub open spec fn scene_world_sets(ns: Seq<SceneNode>, meshes: Seq<MeshData>) -> Seq<Seq<Vec3>> {
    hulls_sets(ns, meshes, hull_indices(ns), hull_indices(ns).len() as int)
}

/// Some hull's child produces a degenerate world point set, on which the
/// pass must fail.
pub open spec fn any_degenerate(ns: Seq<SceneNode>, meshes: Seq<MeshData>) -> bool {
    exists|h: int, j: int|
        0 <= h < ns.len() && 0 <= j < ns.len() && is_hull_node(ns, h) && (#[trigger] pair_set(
            ns,
            meshes,
            h,
            j,
        ) matches Some(s) && is_degenerate(s))
}

/// Every hull node is listed among the first `n` indices once `n` passes it.
proof fn lemma_hull_indices_complete(ns: Seq<SceneNode>, n: int, i: int)
    requires
        0 <= i < n <= ns.len(),
        is_hull_node(ns, i),
    ensures
        exists|k: int|
            0 <= k < hull_indices_upto(ns, n).len() && #[trigger] hull_indices_upto(ns, n)[k] == i,
    decreases n,
{
    if i == n - 1 {
        let cur = hull_indices_upto(ns, n);
        assert(cur[cur.len() - 1] == i);
    } else {
        lemma_hull_indices_complete(ns, n - 1, i);
        let prev = hull_indices_upto(ns, n - 1);
        let k = choose|k: int| 0 <= k < prev.len() && #[trigger] prev[k] == i;
        assert(hull_indices_upto(ns, n)[k] == i);
    }
}

/// The synthesis pass over one scene asset.
///
/// On success: every world point set the scene produces spans a volume;
/// when there is at least one, the cache maps `scene_id` to exactly that
/// collection, in order (one convex sub-shape per set), and otherwise the
/// cache is untouched; every hull node and its descendants are detached and
/// removed, the other nodes are untouched, and no surviving node's name
/// matches the hull predicate. On degenerate geometry: the error is
/// returned and neither the scene nor the cache changes.
pub fn synthesize_scene(
    scene: &mut Scene,
    meshes: &Vec<MeshData>,
    cache: &mut ColliderCache,
    scene_id: u64,
) -> (r: Result<(), SynthesisError>)
    requires
        scene_wf(old(scene).nodes@, meshes@.len() as int),
        forall|i: int| 0 <= i < meshes@.len() ==> mesh_wf(#[trigger] meshes@[i]),
        cache_wf(*old(cache)),
    ensures
        cache_wf(*final(cache)),
        r is Ok <==> !any_degenerate(old(scene).nodes@, meshes@),
        r is Ok ==> {
            let sets = scene_world_sets(old(scene).nodes@, meshes@);
            &&& forall|k: int| 0 <= k < sets.len() ==> spans_volume(#[trigger] sets[k])
            &&& final(cache)@ == (if sets.len() > 0 {
                old(cache)@.insert(scene_id, sets)
            } else {
                old(cache)@
            })
            &&& final(scene).nodes@.len() == old(scene).nodes@.len()
            &&& (forall|i: int|
                0 <= i < old(scene).nodes@.len() ==> {
                    let new_node = #[trigger] final(scene).nodes@[i];
                    let old_node = old(scene).nodes@[i];
                    &&& new_node.name@ == old_node.name@
                    &&& new_node.transform == old_node.transform
                    &&& new_node.mesh == old_node.mesh
                    &&& new_node.alive == (old_node.alive && !under_hull(old(scene).nodes@, i))
                    &&& new_node.parent == (if under_hull(old(scene).nodes@, i) {
                        Option::<usize>::None
                    } else {
                        old_node.parent
                    })
                })
            &&& (forall|i: int|
                0 <= i < final(scene).nodes@.len() && final(scene).nodes@[i].alive
                    ==> !is_hull_name(#[trigger] final(scene).nodes@[i].name@))
        },
        r is Err ==> final(scene).nodes@ == old(scene).nodes@ && final(cache)@ == old(cache)@,
{
    let ghost ns = scene.nodes@;
    let ghost ms = meshes@;
    let n = scene.nodes.len();
    let hulls = locate_hulls(scene);
    let ghost hsv = hull_indices(ns);
    proof {
        lemma_hull_indices_sound(ns, ns.len() as int);
    }
    let mut shapes: Vec<ConvexShape> = Vec::new();
    let mut hi: usize = 0;
    while hi < hulls.len()
        invariant
            ns == scene.nodes@,
            ms == meshes@,
            n == ns.len(),
            scene_wf(ns, ms.len() as int),
            forall|i: int| 0 <= i < ms.len() ==> mesh_wf(#[trigger] ms[i]),
            hulls@.map_values(|u: usize| u as int) == hsv,
            hsv == hull_indices(ns),
            *cache == *old(cache),
            cache_wf(*cache),
            forall|k: int| 0 <= k < hsv.len() ==> 0 <= #[trigger] hsv[k] < n && is_hull_node(
                ns,
                hsv[k],
            ),
            0 <= hi <= hulls@.len(),
            shapes@.len() == hulls_sets(ns, ms, hsv, hi as int).len(),
            forall|k: int|
                0 <= k < shapes@.len() ==> #[trigger] shapes@[k]@ == hulls_sets(
                    ns,
                    ms,
                    hsv,
                    hi as int,
                )[k],
            forall|k: int| 0 <= k < shapes@.len() ==> spans_volume(#[trigger] shapes@[k]@),
            forall|x: int, j: int|
                0 <= x < hi && 0 <= j < n ==> (#[trigger] pair_set(ns, ms, hsv[x], j) matches Some(
                    s,
                ) ==> spans_volume(s)),
        decreases hulls@.len() - hi,
    {
        let h = hulls[hi];
        proof {
            assert(hulls@.map_values(|u: usize| u as int)[hi as int] == hsv[hi as int]);
            assert(h as int == hsv[hi as int]);
        }
        let hull_transform = scene.nodes[h].transform;
        let mut j: usize = 0;
        while j < n
            invariant
                ns == scene.nodes@,
                ms == meshes@,
                n == ns.len(),
                scene_wf(ns, ms.len() as int),
                forall|i: int| 0 <= i < ms.len() ==> mesh_wf(#[trigger] ms[i]),
                0 <= j <= n,
                *cache == *old(cache),
                cache_wf(*cache),
                h < n,
                hull_transform == ns[h as int].transform,
                is_hull_node(ns, h as int),
                shapes@.len() == hulls_sets(ns, ms, hsv, hi as int).len() + hull_sets_upto(
                    ns,
                    ms,
                    h as int,
                    j as int,
                ).len(),
                forall|k: int|
                    0 <= k < shapes@.len() ==> #[trigger] shapes@[k]@ == (hulls_sets(
                        ns,
                        ms,
                        hsv,
                        hi as int,
                    ) + hull_sets_upto(ns, ms, h as int, j as int))[k],
                forall|k: int| 0 <= k < shapes@.len() ==> spans_volume(#[trigger] shapes@[k]@),
                forall|jj: int|
                    0 <= jj < j ==> (#[trigger] pair_set(ns, ms, h as int, jj) matches Some(s)
                        ==> spans_volume(s)),
            decreases n - j,
        {
            let node = &scene.nodes[j];
            let is_child = node.alive && match node.parent {
                Option::Some(p) => p == h,
                Option::None => false,
            };
            let mesh_index = if is_child {
                match node.mesh {
                    Option::Some(m) => Some(m),
                    Option::None => None,
                }
            } else {
                None
            };
            match mesh_index {
                Option::Some(m) => {
                    proof {
                        assert(node_wf(ns[j as int], j as int, ms.len() as int));
                    }
                    match extract_mesh_vertices(&meshes[m]) {
                        Option::Some(pts) => {
                            let world = transform_points(&hull_transform, &pts);
                            proof {
                                assert(world@ =~= transformed_seq(hull_transform, pts@));
                                assert(pair_set(ns, ms, h as int, j as int) == Some(world@));
                            }
                            match ConvexShape::try_new(world) {
                                Option::Some(shape) => {
                                    shapes.push(shape);
                                    proof {
                                        let prefix = hulls_sets(ns, ms, hsv, hi as int)
                                            + hull_sets_upto(ns, ms, h as int, j as int);
                                        let extended = hulls_sets(ns, ms, hsv, hi as int)
                                            + hull_sets_upto(ns, ms, h as int, j + 1);
                                        assert(hull_sets_upto(ns, ms, h as int, j + 1)
                                            == hull_sets_upto(ns, ms, h as int, j as int) + seq![
                                            world@,
                                        ]);
                                        assert(extended =~= prefix.push(world@));
                                        assert forall|k: int| 0 <= k < shapes@.len() implies
                                            #[trigger] shapes@[k]@ == extended[k] by {
                                            if k < shapes@.len() - 1 {
                                                assert(shapes@[k]@ == prefix[k]);
                                            }
                                        }
                                    }
                                },
                                Option::None => {
                                    proof {
                                        assert(is_hull_node(ns, h as int) && (pair_set(
                                            ns,
                                            ms,
                                            h as int,
                                            j as int,
                                        ) matches Some(s) && is_degenerate(s)));
                                        assert(any_degenerate(ns, ms));
                                    }
                                    return Err(SynthesisError::DegenerateGeometry);
                                },
                            }
                        },
                        Option::None => {
                            // unsupported or absent vertex encoding: skip
                            // this mesh, synthesis continues for siblings
                            proof {
                                assert(pair_set(ns, ms, h as int, j as int) is None);
                                assert(hull_sets_upto(ns, ms, h as int, j + 1) =~= hull_sets_upto(
                                    ns,
                                    ms,
                                    h as int,
                                    j as int,
                                ));
                            }
                        },
                    }
                },
                Option::None => {
                    proof {
                        assert(pair_set(ns, ms, h as int, j as int) is None);
                        assert(hull_sets_upto(ns, ms, h as int, j + 1) =~= hull_sets_upto(
                            ns,
                            ms,
                            h as int,
                            j as int,
                        ));
                    }
                },
            }
            j += 1;
        }
        proof {
            assert(hulls_sets(ns, ms, hsv, hi + 1) == hulls_sets(ns, ms, hsv, hi as int)
                + hull_sets_upto(ns, ms, hsv[hi as int], n as int));
        }
        hi += 1;
    }
    // every hull was handled, so no produced set is degenerate
    proof {
        assert(!any_degenerate(ns, ms)) by {
            if any_degenerate(ns, ms) {
                let (h, j) = choose|h: int, j: int|
                    0 <= h < ns.len() && 0 <= j < ns.len() && is_hull_node(ns, h) && (
                    #[trigger] pair_set(ns, ms, h, j) matches Some(s) && is_degenerate(s));
                lemma_hull_indices_complete(ns, ns.len() as int, h);
                let k = choose|k: int| 0 <= k < hsv.len() && #[trigger] hsv[k] == h;
                assert(pair_set(ns, ms, hsv[k], j) matches Some(s) ==> spans_volume(s));
            }
        }
    }
    let ghost sets = scene_world_sets(ns, ms);
    if shapes.len() > 0 {
        let compound = CompoundShape { shapes };
        proof {
            assert(compound@ =~= sets);
        }
        cache.insert(scene_id, compound);
    }
    proof {
        assert(parents_precede(ns)) by {
            assert forall|i: int| 0 <= i < ns.len() implies (#[trigger] ns[i].parent matches Some(
                p,
            ) ==> p < i) by {
                assert(node_wf(ns[i], i, ms.len() as int));
            }
        }
    }
    remove_hull_subtrees(scene);
    proof {
        assert forall|i: int|
            0 <= i < scene.nodes@.len() && scene.nodes@[i].alive implies !is_hull_name(
            #[trigger] scene.nodes@[i].name@,
        ) by {
            assert(node_wf(ns[i], i, ms.len() as int));
            if is_hull_name(ns[i].name@) {
                assert(is_hull_node(ns, i));
                assert(under_hull(ns, i));
            }
        }
    }
    Ok(())
}

/// No hull left, nothing produced, nothing removed: running the pass on a
/// scene without hull nodes is a no-op, which makes the pass idempotent —
/// after one run no surviving node matches the hull predicate, so a second
/// run neither alters the cache entry nor the graph.
pub proof fn lemma_synthesis_idempotent(ns: Seq<SceneNode>, meshes: Seq<MeshData>)
    requires
        forall|i: int| 0 <= i < ns.len() ==> !is_hull_node(ns, i),
    ensures
        scene_world_sets(ns, meshes) == Seq::<Seq<Vec3>>::empty(),
        forall|i: int| 0 <= i < ns.len() ==> !under_hull(ns, i),
{
    crate::scene::lemma_no_hulls_no_indices(ns, ns.len() as int);
    assert(scene_world_sets(ns, meshes) == Seq::<Seq<Vec3>>::empty());
    assert forall|i: int| 0 <= i < ns.len() implies !under_hull(ns, i) by {
        lemma_not_under_hull(ns, i);
    }
}

/// Without hull nodes, no node is under a hull.
proof fn lemma_not_under_hull(ns: Seq<SceneNode>, i: int)
    requires
        0 <= i < ns.len(),
        forall|k: int| 0 <= k < ns.len() ==> !is_hull_node(ns, k),
    ensures
        !under_hull(ns, i),
    decreases i,
{
    match ns[i].parent {
        Option::Some(p) => {
            if 0 <= p < i {
                lemma_not_under_hull(ns, p as int);
            }
        },
        Option::None => {},
    }
}

/// A scene whose hulls have no mesh-bearing children produces no world
/// point sets, so the cache gets no entry for it.
pub proof fn lemma_no_mesh_children_no_sets(ns: Seq<SceneNode>, meshes: Seq<MeshData>)
    requires
        forall|h: int, j: int|
            0 <= h < ns.len() && 0 <= j < ns.len() ==> !(is_hull_node(ns, h)
                && #[trigger] is_mesh_child(ns, j, h)),
    ensures
        scene_world_sets(ns, meshes) == Seq::<Seq<Vec3>>::empty(),
{
    lemma_hull_indices_sound(ns, ns.len() as int);
    let hsv = hull_indices(ns);
    lemma_hulls_sets_empty(ns, meshes, hsv, hsv.len() as int);
}

/// Helper for the law above: hull by hull, nothing accumulates.
proof fn lemma_hulls_sets_empty(
    ns: Seq<SceneNode>,
    meshes: Seq<MeshData>,
    hs: Seq<int>,
    k: int,
)
    requires
        0 <= k <= hs.len(),
        forall|x: int| 0 <= x < hs.len() ==> 0 <= #[trigger] hs[x] < ns.len() && is_hull_node(
            ns,
            hs[x],
        ),
        forall|h: int, j: int|
            0 <= h < ns.len() && 0 <= j < ns.len() ==> !(is_hull_node(ns, h)
                && #[trigger] is_mesh_child(ns, j, h)),
    ensures
        hulls_sets(ns, meshes, hs, k) == Seq::<Seq<Vec3>>::empty(),
    decreases k,
{
    if k > 0 {
        lemma_hulls_sets_empty(ns, meshes, hs, k - 1);
        lemma_hull_sets_empty(ns, meshes, hs[k - 1], ns.len() as int);
        assert(hulls_sets(ns, meshes, hs, k) =~= Seq::<Seq<Vec3>>::empty());
    }
}

/// Helper: a hull without mesh-bearing children accumulates nothing.
proof fn lemma_hull_sets_empty(ns: Seq<SceneNode>, meshes: Seq<MeshData>, h: int, n: int)
    requires
        0 <= n <= ns.len(),
        0 <= h < ns.len(),
        is_hull_node(ns, h),
        forall|hh: int, j: int|
            0 <= hh < ns.len() && 0 <= j < ns.len() ==> !(is_hull_node(ns, hh)
                && #[trigger] is_mesh_child(ns, j, hh)),
    ensures
        hull_sets_upto(ns, meshes, h, n) == Seq::<Seq<Vec3>>::empty(),
    decreases n,
{
    if n > 0 {
        lemma_hull_sets_empty(ns, meshes, h, n - 1);
        assert(!is_mesh_child(ns, n - 1, h));
        assert(hull_sets_upto(ns, meshes, h, n) =~= Seq::<Seq<Vec3>>::empty());
    }
}

} // verus!
