//! The scene graph as the collider synthesis pass reads and rewrites it.
//!
//! A loaded scene is a forest of named nodes, each with a local transform,
//! an optional mesh reference and an optional parent. Nodes are indexed so
//! that a parent always precedes its children. Hull nodes are classified by
//! name alone; the pass later removes every hull node together with its
//! descendants, so hull geometry never renders.

use vstd::prelude::*;

use crate::math::Affine;
use crate::math::affine_wf;
use crate::names::is_hull_name;
use crate::names::name_matches_hull;

verus! {

/// One node of a loaded scene graph.
pub struct SceneNode {
    /// UTF-8 bytes of the node's name.
    pub name: Vec<u8>,
    /// The node's local transform: translation, rotation and scale composed.
    pub transform: Affine,
    /// Index into the mesh table, when the node carries a mesh.
    pub mesh: Option<usize>,
    /// Index of the parent node; parents precede their children.
    pub parent: Option<usize>,
    /// Whether the node still exists; removal clears this.
    pub alive: bool,
}

/// A scene graph: its nodes, indexed densely.
pub struct Scene {
    pub nodes: Vec<SceneNode>,
}

/// Well-formedness of one node at index `i` against a mesh table of
/// `n_meshes` entries. A node whose name matches the hull predicate never
/// itself carries a mesh: meshes live one level below, on its children.
pub open spec fn node_wf(n: SceneNode, i: int, n_meshes: int) -> bool {
    &&& (n.parent matches Some(p) ==> p < i)
    &&& (n.mesh matches Some(m) ==> m < n_meshes)
    &&& affine_wf(n.transform)
    &&& (is_hull_name(n.name@) ==> n.mesh is None)
}

/// A well-formed scene against a mesh table of `n_meshes` entries.
pub open spec fn scene_wf(ns: Seq<SceneNode>, n_meshes: int) -> bool {
    forall|i: int| 0 <= i < ns.len() ==> node_wf(#[trigger] ns[i], i, n_meshes)
}

/// Parents precede their children in the node order, as loaded scenes are
/// numbered.
pub open spec fn parents_precede(ns: Seq<SceneNode>) -> bool {
    forall|i: int|
        #![trigger ns[i].parent]
        0 <= i < ns.len() ==> (ns[i].parent matches Some(p) ==> p < i)
}

/// The node at `i` is classified as a collision hull: it is alive, carries
/// no mesh itself, and its name matches the hull predicate.
pub open spec fn is_hull_node(ns: Seq<SceneNode>, i: int) -> bool {
    ns[i].alive && ns[i].mesh is None && is_hull_name(ns[i].name@)
}

/// The node at `i` is a hull node or a descendant of one, so removal will
/// take it.
pub open spec fn under_hull(ns: Seq<SceneNode>, i: int) -> bool
    decreases i,
{
    is_hull_node(ns, i) || (ns[i].parent matches Some(p) && 0 <= p < i && under_hull(ns, p as int))
}

/// The hull node indices among the first `n` nodes, ascending.
pub open spec fn hull_indices_upto(ns: Seq<SceneNode>, n: int) -> Seq<int>
    decreases n,
{
    if n <= 0 {
        Seq::empty()
    } else {
        hull_indices_upto(ns, n - 1) + if is_hull_node(ns, n - 1) {
            seq![n - 1]
        } else {
            Seq::empty()
        }
    }
}

/// All hull node indices of the scene, ascending.
pub open spec fn hull_indices(ns: Seq<SceneNode>) -> Seq<int> {
    hull_indices_upto(ns, ns.len() as int)
}

/// A scene with no hull node has an empty hull index list.
pub proof fn lemma_no_hulls_no_indices(ns: Seq<SceneNode>, n: int)
    requires
        0 <= n <= ns.len(),
        forall|i: int| 0 <= i < ns.len() ==> !is_hull_node(ns, i),
    ensures
        hull_indices_upto(ns, n) == Seq::<int>::empty(),
    decreases n,
{
    if n > 0 {
        lemma_no_hulls_no_indices(ns, n - 1);
        assert(hull_indices_upto(ns, n) =~= Seq::<int>::empty());
    }
}

/// Every listed hull index is in range and classified as a hull.
pub proof fn lemma_hull_indices_sound(ns: Seq<SceneNode>, n: int)
    requires
        0 <= n <= ns.len(),
    ensures
        forall|k: int|
            0 <= k < hull_indices_upto(ns, n).len() ==> {
                let i = #[trigger] hull_indices_upto(ns, n)[k];
                0 <= i < n && is_hull_node(ns, i)
            },
    decreases n,
{
    if n > 0 {
        lemma_hull_indices_sound(ns, n - 1);
        let prev = hull_indices_upto(ns, n - 1);
        let cur = hull_indices_upto(ns, n);
        assert forall|k: int| 0 <= k < cur.len() implies {
            let i = #[trigger] cur[k];
            0 <= i < n && is_hull_node(ns, i)
        } by {
            if k < prev.len() {
                assert(cur[k] == prev[k]);
            } else {
                assert(cur[k] == n - 1);
            }
        }
    }
}

/// Locate the hull nodes of a scene: all alive nodes without a mesh whose
/// name matches the hull predicate, in ascending index order. A pure query.
pub fn locate_hulls(scene: &Scene) -> (r: Vec<usize>)
    ensures
        r@.map_values(|u: usize| u as int) == hull_indices(scene.nodes@),
        forall|k: int| 0 <= k < r@.len() ==> #[trigger] r@[k] < scene.nodes@.len(),
{
    let ghost ns = scene.nodes@;
    let n = scene.nodes.len();
    let mut out: Vec<usize> = Vec::new();
    let mut i: usize = 0;
    while i < n
        invariant
            ns == scene.nodes@,
            n == ns.len(),
            0 <= i <= n,
            out@.map_values(|u: usize| u as int) == hull_indices_upto(ns, i as int),
            forall|k: int| 0 <= k < out@.len() ==> #[trigger] out@[k] < n,
        decreases n - i,
    {
        let node = &scene.nodes[i];
        let is_hull = node.mesh.is_none() && node.alive && name_matches_hull(&node.name);
        proof {
            assert(is_hull == is_hull_node(ns, i as int));
        }
        if is_hull {
            out.push(i);
        }
        proof {
            assert(out@.map_values(|u: usize| u as int) =~= hull_indices_upto(ns, i + 1));
        }
        i += 1;
    }
    out
}

/// Remove every hull node and all their descendants from the scene:
/// detach each from its parent and clear it, leaving the other nodes
/// untouched. Collection and mutation are two phases, so iteration never
/// sees a half-rewritten graph.
pub fn remove_hull_subtrees(scene: &mut Scene)
    requires
        parents_precede(old(scene).nodes@),
    ensures
        final(scene).nodes@.len() == old(scene).nodes@.len(),
        forall|i: int|
            0 <= i < old(scene).nodes@.len() ==> {
                let new_node = #[trigger] final(scene).nodes@[i];
                let old_node = old(scene).nodes@[i];
                &&& new_node.name@ == old_node.name@
                &&& new_node.transform == old_node.transform
                &&& new_node.mesh == old_node.mesh
                &&& new_node.alive == (old_node.alive && !under_hull(old(scene).nodes@, i))
                &&& new_node.parent == (if under_hull(old(scene).nodes@, i) {
                    Option::<usize>::None
                } else {
                    old_node.parent
                })
            },
{
    let ghost ns = old(scene).nodes@;
    let n = scene.nodes.len();
    // phase 1: collect, as marks, every node whose ancestor chain hits a
    // hull node; parents precede children, so one ascending sweep settles it
    let mut marked: Vec<bool> = Vec::new();
    let mut i: usize = 0;
    while i < n
        invariant
            ns == scene.nodes@,
            n == ns.len(),
            0 <= i <= n,
            marked@.len() == i,
            parents_precede(ns),
            forall|j: int| 0 <= j < i ==> #[trigger] marked@[j] == under_hull(ns, j),
        decreases n - i,
    {
        let node = &scene.nodes[i];
        let own = node.mesh.is_none() && node.alive && name_matches_hull(&node.name);
        proof {
            assert(ns[i as int].parent matches Some(p) ==> p < i);
        }
        let from_parent = match node.parent {
            Option::Some(p) => marked[p],
            Option::None => false,
        };
        proof {
            assert((own || from_parent) == under_hull(ns, i as int));
        }
        marked.push(own || from_parent);
        i += 1;
    }
    // phase 2: detach and clear the marked nodes
    let mut k: usize = 0;
    while k < n
        invariant
            n == scene.nodes@.len(),
            ns.len() == n,
            0 <= k <= n,
            marked@.len() == n,
            forall|j: int| 0 <= j < n ==> #[trigger] marked@[j] == under_hull(ns, j),
            forall|j: int| k <= j < n ==> #[trigger] scene.nodes@[j] == ns[j],
            forall|j: int|
                0 <= j < k ==> {
                    let new_node = #[trigger] scene.nodes@[j];
                    &&& new_node.name@ == ns[j].name@
                    &&& new_node.transform == ns[j].transform
                    &&& new_node.mesh == ns[j].mesh
                    &&& new_node.alive == (ns[j].alive && !under_hull(ns, j))
                    &&& new_node.parent == (if under_hull(ns, j) {
                        Option::<usize>::None
                    } else {
                        ns[j].parent
                    })
                },
        decreases n - k,
    {
        if marked[k] {
            scene.nodes[k].alive = false;
            scene.nodes[k].parent = None;
        }
        k += 1;
    }
}

} // verus!
