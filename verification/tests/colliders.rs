use hullfire::cache::{attach_collider, ColliderCache};
use hullfire::geometry::{extract_mesh_vertices, transform_points, MeshData, VertexPositions};
use hullfire::math::{Affine, Vec3};
use hullfire::names::name_matches_hull;
use hullfire::scene::{locate_hulls, remove_hull_subtrees, Scene, SceneNode};
use hullfire::shape::{points_span_volume, ConvexShape};
use hullfire::synthesis::{synthesize_scene, SynthesisError};

fn v(x: i64, y: i64, z: i64) -> Vec3 {
    Vec3 { x, y, z }
}

fn node(name: &str, mesh: Option<usize>, parent: Option<usize>) -> SceneNode {
    SceneNode {
        name: name.as_bytes().to_vec(),
        transform: Affine::identity(),
        mesh,
        parent,
        alive: true,
    }
}

fn tetra_mesh() -> MeshData {
    MeshData {
        positions: Some(VertexPositions::Grouped(vec![
            v(0, 0, 0),
            v(4, 0, 0),
            v(0, 4, 0),
            v(0, 0, 4),
        ])),
    }
}

fn flat_square_mesh() -> MeshData {
    // four points in the z = 0 plane: degenerate for hull construction
    MeshData {
        positions: Some(VertexPositions::Flat(vec![0, 0, 0, 4, 0, 0, 0, 4, 0, 4, 4, 0])),
    }
}

#[test]
fn hull_predicate_on_suffix() {
    assert!(name_matches_hull(&b"engine_hull".to_vec()));
    assert!(!name_matches_hull(&b"engine".to_vec()));
    assert!(!name_matches_hull(&b"hull".to_vec()));
    assert!(!name_matches_hull(&b"enginehull".to_vec()));
    assert!(!name_matches_hull(&b"engine_hulk".to_vec()));
}

#[test]
fn hull_predicate_on_infix() {
    assert!(name_matches_hull(&b"wing_hull_03".to_vec()));
    // a name that contains `_hull_` but ends differently still matches
    assert!(name_matches_hull(&b"wing_hull_left.001".to_vec()));
    assert!(!name_matches_hull(&b"wing_hul_03".to_vec()));
}

#[test]
fn extracts_flat_triples() {
    let mesh = MeshData {
        positions: Some(VertexPositions::Flat(vec![1, 2, 3, 4, 5, 6])),
    };
    let pts = extract_mesh_vertices(&mesh).unwrap();
    assert_eq!(pts, vec![v(1, 2, 3), v(4, 5, 6)]);
}

#[test]
fn extracts_grouped_points() {
    let mesh = MeshData {
        positions: Some(VertexPositions::Grouped(vec![v(7, 8, 9)])),
    };
    let pts = extract_mesh_vertices(&mesh).unwrap();
    assert_eq!(pts, vec![v(7, 8, 9)]);
}

#[test]
fn unsupported_or_missing_positions_yield_none() {
    let unsupported = MeshData {
        positions: Some(VertexPositions::Unsupported),
    };
    assert!(extract_mesh_vertices(&unsupported).is_none());
    let absent = MeshData { positions: None };
    assert!(extract_mesh_vertices(&absent).is_none());
}

#[test]
fn transform_applies_rotation_scale_translation() {
    // scale x by 2, swap y and z, translate by (10, 20, 30)
    let a = Affine {
        xx: 2,
        xy: 0,
        xz: 0,
        yx: 0,
        yy: 0,
        yz: 1,
        zx: 0,
        zy: 1,
        zz: 0,
        tx: 10,
        ty: 20,
        tz: 30,
    };
    let out = transform_points(&a, &vec![v(1, 2, 3)]);
    assert_eq!(out, vec![v(12, 23, 32)]);
}

#[test]
fn tetrahedron_spans_volume() {
    let pts = vec![v(0, 0, 0), v(1, 0, 0), v(0, 1, 0), v(0, 0, 1)];
    assert!(points_span_volume(&pts));
}

#[test]
fn coplanar_points_are_degenerate() {
    let pts = vec![v(0, 0, 0), v(4, 0, 0), v(0, 4, 0), v(4, 4, 0), v(2, 2, 0)];
    assert!(!points_span_volume(&pts));
}

#[test]
fn collinear_and_tiny_sets_are_degenerate() {
    assert!(!points_span_volume(&vec![]));
    assert!(!points_span_volume(&vec![v(1, 1, 1)]));
    assert!(!points_span_volume(&vec![v(0, 0, 0), v(1, 2, 3), v(2, 4, 6)]));
    assert!(!points_span_volume(&vec![v(5, 5, 5), v(5, 5, 5), v(5, 5, 5), v(5, 5, 5)]));
}

#[test]
fn convex_shape_rejects_degenerate_input() {
    assert!(ConvexShape::try_new(vec![v(0, 0, 0), v(1, 0, 0), v(0, 1, 0)]).is_none());
    let s = ConvexShape::try_new(vec![v(0, 0, 0), v(1, 0, 0), v(0, 1, 0), v(0, 0, 1)]).unwrap();
    assert_eq!(s.points.len(), 4);
}

#[test]
fn locator_finds_meshless_hull_nodes_only() {
    let scene = Scene {
        nodes: vec![
            node("ship", None, None),
            node("engine_hull", None, Some(0)),
            node("engine_geo", Some(0), Some(1)),
            node("wing_hull_01", None, Some(0)),
        ],
    };
    assert_eq!(locate_hulls(&scene), vec![1, 3]);
}

#[test]
fn removal_clears_hulls_and_descendants() {
    let mut scene = Scene {
        nodes: vec![
            node("ship", None, None),
            node("engine_hull", None, Some(0)),
            node("engine_geo", Some(0), Some(1)),
            node("body_geo", Some(0), Some(0)),
        ],
    };
    remove_hull_subtrees(&mut scene);
    assert!(scene.nodes[0].alive);
    assert!(!scene.nodes[1].alive);
    assert!(scene.nodes[1].parent.is_none());
    assert!(!scene.nodes[2].alive);
    assert!(scene.nodes[3].alive);
    assert_eq!(scene.nodes[3].parent, Some(0));
}

#[test]
fn synthesis_caches_one_shape_per_valid_pair() {
    let mut scene = Scene {
        nodes: vec![
            node("ship", None, None),
            node("engine_hull", None, Some(0)),
            node("engine_geo", Some(0), Some(1)),
            node("wing_hull_01", None, Some(0)),
            node("wing_geo", Some(0), Some(3)),
        ],
    };
    let meshes = vec![tetra_mesh()];
    let mut cache = ColliderCache::new();
    synthesize_scene(&mut scene, &meshes, &mut cache, 7).unwrap();
    // one sub-shape per valid world point set, across both hulls
    let shape = cache.get(7).unwrap();
    assert_eq!(shape.shapes.len(), 2);
    assert_eq!(shape.shapes[0].points, vec![v(0, 0, 0), v(4, 0, 0), v(0, 4, 0), v(0, 0, 4)]);
    // after synthesis no surviving node matches the hull predicate
    for n in &scene.nodes {
        if n.alive {
            assert!(!name_matches_hull(&n.name));
        }
    }
}

#[test]
fn synthesis_applies_hull_transform_to_children() {
    let mut hull = node("pod_hull", None, Some(0));
    hull.transform = Affine {
        xx: 1,
        xy: 0,
        xz: 0,
        yx: 0,
        yy: 1,
        yz: 0,
        zx: 0,
        zy: 0,
        zz: 1,
        tx: 100,
        ty: 0,
        tz: 0,
    };
    let mut scene = Scene {
        nodes: vec![node("ship", None, None), hull, node("pod_geo", Some(0), Some(1))],
    };
    let meshes = vec![tetra_mesh()];
    let mut cache = ColliderCache::new();
    synthesize_scene(&mut scene, &meshes, &mut cache, 1).unwrap();
    let shape = cache.get(1).unwrap();
    assert_eq!(shape.shapes[0].points[0], v(100, 0, 0));
    assert_eq!(shape.shapes[0].points[1], v(104, 0, 0));
}

#[test]
fn hulls_without_mesh_children_cache_nothing() {
    let mut scene = Scene {
        nodes: vec![
            node("ship", None, None),
            node("engine_hull", None, Some(0)),
            node("wing_hull_01", None, Some(0)),
        ],
    };
    let meshes = vec![tetra_mesh()];
    let mut cache = ColliderCache::new();
    synthesize_scene(&mut scene, &meshes, &mut cache, 7).unwrap();
    assert!(!cache.contains(7));
    // the hull nodes are still removed
    assert!(!scene.nodes[1].alive);
    assert!(!scene.nodes[2].alive);
}

#[test]
fn unsupported_meshes_are_skipped_not_fatal() {
    let mut scene = Scene {
        nodes: vec![
            node("ship", None, None),
            node("engine_hull", None, Some(0)),
            node("engine_geo", Some(0), Some(1)),
            node("engine_geo_extra", Some(1), Some(1)),
        ],
    };
    let meshes = vec![MeshData { positions: Some(VertexPositions::Unsupported) }, tetra_mesh()];
    let mut cache = ColliderCache::new();
    synthesize_scene(&mut scene, &meshes, &mut cache, 3).unwrap();
    assert_eq!(cache.get(3).unwrap().shapes.len(), 1);
}

#[test]
fn degenerate_geometry_is_fatal_and_alters_nothing() {
    let mut scene = Scene {
        nodes: vec![
            node("ship", None, None),
            node("engine_hull", None, Some(0)),
            node("engine_geo", Some(0), Some(1)),
        ],
    };
    let meshes = vec![flat_square_mesh()];
    let mut cache = ColliderCache::new();
    let r = synthesize_scene(&mut scene, &meshes, &mut cache, 9);
    assert_eq!(r, Err(SynthesisError::DegenerateGeometry));
    assert!(!cache.contains(9));
    // the scene is untouched: the hull is still there
    assert!(scene.nodes[1].alive);
    assert_eq!(locate_hulls(&scene), vec![1]);
}

#[test]
fn synthesis_twice_is_a_no_op() {
    let mut scene = Scene {
        nodes: vec![
            node("ship", None, None),
            node("engine_hull", None, Some(0)),
            node("engine_geo", Some(0), Some(1)),
        ],
    };
    let meshes = vec![tetra_mesh()];
    let mut cache = ColliderCache::new();
    synthesize_scene(&mut scene, &meshes, &mut cache, 7).unwrap();
    let entry_before = cache.get(7).unwrap().deep_copy();
    let alive_before: Vec<bool> = scene.nodes.iter().map(|n| n.alive).collect();
    // a second run finds no hull nodes: no new entry, nothing removed
    synthesize_scene(&mut scene, &meshes, &mut cache, 7).unwrap();
    let entry_after = cache.get(7).unwrap();
    assert_eq!(entry_after.shapes.len(), entry_before.shapes.len());
    assert_eq!(entry_after.shapes[0].points, entry_before.shapes[0].points);
    let alive_after: Vec<bool> = scene.nodes.iter().map(|n| n.alive).collect();
    assert_eq!(alive_before, alive_after);
}

#[test]
fn attach_hands_out_independent_copies() {
    let mut scene = Scene {
        nodes: vec![
            node("ship", None, None),
            node("engine_hull", None, Some(0)),
            node("engine_geo", Some(0), Some(1)),
        ],
    };
    let meshes = vec![tetra_mesh()];
    let mut cache = ColliderCache::new();
    synthesize_scene(&mut scene, &meshes, &mut cache, 7).unwrap();
    let mut first = attach_collider(&cache, 7).unwrap();
    let second = attach_collider(&cache, 7).unwrap();
    assert_eq!(first.shapes.len(), 1);
    assert_eq!(second.shapes.len(), 1);
    // mutating one instance's copy leaves the other and the cache alone
    first.shapes[0].points.push(v(9, 9, 9));
    assert_eq!(second.shapes[0].points.len(), 4);
    assert_eq!(cache.get(7).unwrap().shapes[0].points.len(), 4);
    // a scene that cached nothing attaches nothing
    assert!(attach_collider(&cache, 8).is_none());
}
