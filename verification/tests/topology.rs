use brep::mesh::{Edge, Mesh};
use brep::messages::describe;
use brep::primitives::{make_cube, make_ramp};
use brep::pull::{check_merges_keep_manifold, contains_sorted, pop_max, pull_face};
use brep::pushpull::{make_push_pull_workspace, push_limit_vertices};
use brep::validate::{validate_mesh, MeshError};
use brep::{EdgeId, FaceId, OrientedEdgeId, Vertex, VertexId};
use nalgebra::{Point3, Unit, Vector3};

type GeoMesh = Mesh<Point3<f64>, Unit<Vector3<f64>>>;

fn normal(x: f64, y: f64, z: f64) -> Unit<Vector3<f64>> {
    Unit::new_normalize(Vector3::new(x, y, z))
}

fn cube() -> GeoMesh {
    make_cube(
        [
            Point3::new(0.0, 0.0, 0.0),
            Point3::new(1.0, 0.0, 0.0),
            Point3::new(1.0, 1.0, 0.0),
            Point3::new(0.0, 1.0, 0.0),
            Point3::new(0.0, 0.0, 1.0),
            Point3::new(1.0, 0.0, 1.0),
            Point3::new(1.0, 1.0, 1.0),
            Point3::new(0.0, 1.0, 1.0),
        ],
        [
            normal(0.0, 0.0, -1.0),
            normal(0.0, 0.0, 1.0),
            normal(0.0, -1.0, 0.0),
            normal(0.0, 1.0, 0.0),
            normal(-1.0, 0.0, 0.0),
            normal(1.0, 0.0, 0.0),
        ],
    )
}

fn ramp() -> GeoMesh {
    make_ramp(
        [
            Point3::new(0.0, 0.0, 1.0),
            Point3::new(2.0, 0.0, 1.0),
            Point3::new(1.0, 0.5, 1.0),
            Point3::new(1.0, 1.0, 1.0),
            Point3::new(0.0, 1.0, 1.0),
            Point3::new(0.0, 0.0, 0.0),
            Point3::new(2.0, 0.0, 0.0),
            Point3::new(1.0, 0.5, 0.0),
            Point3::new(1.0, 1.0, 0.0),
            Point3::new(0.0, 1.0, 0.0),
        ],
        [
            normal(0.0, 0.0, 1.0),
            normal(0.0, 0.0, -1.0),
            normal(0.0, -1.0, 0.0),
            normal(0.5, 1.0, 0.0),
            normal(1.0, 0.0, 0.0),
            normal(0.0, 1.0, 0.0),
            normal(-1.0, 0.0, 0.0),
        ],
    )
}

// Rotate the vector such that the minimum element is at [0].
/// Newell's normal of face `f`, as the original's `compute_face_normal`.
fn newell_normal(m: &GeoMesh, f: usize) -> Unit<Vector3<f64>> {
    let positions: Vec<Point3<f64>> =
        m.vertices_of_face(FaceId::new(f)).iter().map(|v| m.vertices[v.index()].position).collect();
    let mut normal = Vector3::zeros();
    let n = positions.len();
    for i in 0..n {
        let vi = positions[i];
        let vj = positions[(i + 1) % n];
        normal.x += (vi.y - vj.y) * (vi.z + vj.z);
        normal.y += (vi.z - vj.z) * (vi.x + vj.x);
        normal.z += (vi.x - vj.x) * (vi.y + vj.y);
    }
    Unit::try_new(normal, 1e-12).expect("the normal can be computed")
}

/// Every stored normal matches the computed one.
fn assert_normals_match(m: &GeoMesh) {
    for (i, f) in m.faces.iter().enumerate() {
        if let Some(stored) = &f.normal {
            let cos_angle = newell_normal(m, i).dot(stored);
            assert!(cos_angle.is_finite() && cos_angle >= 1.0 - 1e-11, "face {i}: stored normal does not match");
        }
    }
}

fn rotate<T: Ord>(mut v: Vec<T>) -> Vec<T> {
    if v.is_empty() {
        return v;
    }
    let min_pos = v.iter().enumerate().min_by_key(|(_, x)| *x).unwrap().0;
    v.rotate_left(min_pos);
    v
}

#[test]
fn adjacent_faces_of_cube() {
    let m = cube();
    assert_eq!(
        rotate(m.adjacent_faces(FaceId::new(2))),
        vec![FaceId::new(0), FaceId::new(5), FaceId::new(1), FaceId::new(4)]
    );
    assert_eq!(
        rotate(m.adjacent_faces(FaceId::new(3))),
        vec![FaceId::new(0), FaceId::new(4), FaceId::new(1), FaceId::new(5)]
    );
    assert_eq!(
        rotate(m.adjacent_faces(FaceId::new(1))),
        vec![FaceId::new(2), FaceId::new(5), FaceId::new(3), FaceId::new(4)]
    );
}

#[test]
fn vertices_of_face() {
    let m = cube();
    assert_eq!(
        rotate(m.vertices_of_face(FaceId::new(2))),
        vec![VertexId::new(0), VertexId::new(1), VertexId::new(5), VertexId::new(4)]
    );
}

#[test]
fn edges_of_face() {
    let m = cube();
    assert_eq!(
        rotate(m.edges_of_face(FaceId::new(2))),
        vec![EdgeId::new(0), EdgeId::new(9), EdgeId::new(4), EdgeId::new(8)]
    );
}

#[test]
fn cube_topology() {
    let m = cube();

    validate_mesh(&m).unwrap_or_else(|errors| panic!("mesh validation errors:\n{:?}", errors));

    // Cube-specific counts.
    assert_eq!(m.vertices.len(), 8);
    assert_eq!(m.edges.len(), 12);
    assert_eq!(m.oriented_edges.len(), 24);
    assert_eq!(m.faces.len(), 6);

    // All faces are quads and have an outward normal.
    for (i, f) in m.faces.iter().enumerate() {
        assert_eq!(f.oriented_edges.len(), 4, "face {i} is not a quad");
        assert!(f.normal.is_some(), "face {i} has no normal");
    }
    assert_normals_match(&m);
}

#[test]
fn ramp_topology() {
    let m = ramp();

    validate_mesh(&m).unwrap_or_else(|errors| panic!("mesh validation errors:\n{:?}", errors));

    assert_eq!(m.vertices.len(), 10);
    assert_eq!(m.edges.len(), 15);
    assert_eq!(m.oriented_edges.len(), 30);
    assert_eq!(m.faces.len(), 7);

    // Top and bottom are pentagons; the 5 side faces are quads.
    assert_eq!(m.faces[0].oriented_edges.len(), 5, "top face not a pentagon");
    assert_eq!(m.faces[1].oriented_edges.len(), 5, "bottom face not a pentagon");
    for i in 2..7 {
        assert_eq!(m.faces[i].oriented_edges.len(), 4, "side face {i} not a quad");
    }
    for (i, f) in m.faces.iter().enumerate() {
        assert!(f.normal.is_some(), "face {i} has no normal");
    }
    assert_normals_match(&m);
}

#[test]
fn ids_round_trip_and_invalid() {
    assert_eq!(VertexId::new(7).index(), 7);
    assert_eq!(EdgeId::new(11).index(), 11);
    assert_eq!(OrientedEdgeId::new(23).index(), 23);
    assert_eq!(FaceId::new(5).index(), 5);
    assert_eq!(EdgeId::invalid().0, u32::MAX);
    assert_eq!(OrientedEdgeId::invalid().0, u32::MAX);
    assert_eq!(FaceId::invalid().0, u32::MAX);
    assert_eq!(FaceId::new((1usize << 32) + 3).index(), 3);
}

#[test]
fn ramp_neighbourhoods() {
    let m = ramp();
    // The front face y = 0 runs v0 -> v5 -> v6 -> v1.
    assert_eq!(
        m.vertices_of_face(FaceId::new(2)),
        vec![VertexId::new(0), VertexId::new(5), VertexId::new(6), VertexId::new(1)]
    );
    assert_eq!(
        rotate(m.adjacent_faces(FaceId::new(0))),
        vec![FaceId::new(2), FaceId::new(3), FaceId::new(4), FaceId::new(5), FaceId::new(6)]
    );
    assert_eq!(m.edges_of_face(FaceId::new(0)).len(), 5);
}

#[test]
fn walkability_and_slot_checks() {
    let mut m = cube();
    assert!(m.is_face_walkable(FaceId::new(3)));
    assert!(m.is_face_twins_walkable(FaceId::new(3)));
    assert!(!m.is_face_walkable(FaceId::new(6)));
    assert!(m.has_oes_in_own_slots());
    m.faces[3].oriented_edges[0] = OrientedEdgeId::new(99);
    assert!(!m.is_face_walkable(FaceId::new(3)));
    let mut m2 = cube();
    m2.edges[0].oriented_edges = [OrientedEdgeId::new(1), OrientedEdgeId::new(0)];
    assert!(!m2.has_oes_in_own_slots());
}

#[test]
fn validate_reports_out_of_range_vertex() {
    let mut m = cube();
    m.edges[0].vertices[0] = VertexId::new(100);
    let errors = validate_mesh(&m).unwrap_err();
    assert!(errors.contains(&MeshError::EdgeVertexOutOfRange {
        edge: 0,
        slot: 0,
        vertex: 100,
        num_vertices: 8
    }));
}

#[test]
fn validate_reports_slot_errors() {
    let mut m = cube();
    m.edges[0].oriented_edges = [OrientedEdgeId::new(2), OrientedEdgeId::new(30)];
    let errors = validate_mesh(&m).unwrap_err();
    assert!(errors.contains(&MeshError::EdgeBackRefMismatch {
        edge: 0,
        slot: 0,
        oriented_edge: 2,
        back_ref: 1
    }));
    assert!(errors.contains(&MeshError::EdgeOrientedEdgeOutOfRange {
        edge: 0,
        slot: 1,
        oriented_edge: 30,
        num_oriented_edges: 24
    }));

    let mut m = cube();
    m.edges[0].oriented_edges = [OrientedEdgeId::new(1), OrientedEdgeId::new(0)];
    let errors = validate_mesh(&m).unwrap_err();
    assert!(errors.contains(&MeshError::EdgeDirectionMismatch {
        edge: 0,
        slot: 0,
        oriented_edge: 1,
        forward: false
    }));
}

#[test]
fn validate_reports_oriented_edge_errors() {
    let mut m = cube();
    m.oriented_edges[5].edge = EdgeId::new(40);
    m.oriented_edges[6].face = FaceId::new(9);
    let errors = validate_mesh(&m).unwrap_err();
    assert!(errors.contains(&MeshError::OrientedEdgeEdgeOutOfRange {
        oriented_edge: 5,
        edge: 40,
        num_edges: 12
    }));
    assert!(errors.contains(&MeshError::OrientedEdgeFaceOutOfRange {
        oriented_edge: 6,
        face: 9,
        num_faces: 6
    }));

    let mut m = cube();
    let f = m.oriented_edges[0].face.index();
    let other = (f + 1) % 6;
    m.oriented_edges[0].face = FaceId::new(other);
    let errors = validate_mesh(&m).unwrap_err();
    assert!(errors.contains(&MeshError::OrientedEdgeNotInLoop { oriented_edge: 0, face: other }));
}

#[test]
fn validate_reports_loop_errors() {
    let mut m = cube();
    let first = m.faces[0].oriented_edges[0];
    m.faces[0].oriented_edges[0] = OrientedEdgeId::new(77);
    let errors = validate_mesh(&m).unwrap_err();
    assert!(errors.contains(&MeshError::FaceOrientedEdgeOutOfRange {
        face: 0,
        position: 0,
        oriented_edge: 77,
        num_oriented_edges: 24
    }));
    assert!(errors.contains(&MeshError::OrientedEdgeUnreferenced { oriented_edge: first.index() }));

    let mut m = cube();
    let dup = m.faces[1].oriented_edges[0];
    m.faces[0].oriented_edges.push(dup);
    let errors = validate_mesh(&m).unwrap_err();
    assert!(errors.contains(&MeshError::OrientedEdgeMultiplyReferenced {
        oriented_edge: dup.index(),
        count: 2
    }));
    assert!(errors.iter().any(|e| matches!(e, MeshError::LoopGap { face: 0, .. })));
}

#[test]
fn validate_reports_small_and_non_manifold_faces() {
    let mut m = cube();
    m.faces[0].oriented_edges.truncate(2);
    let errors = validate_mesh(&m).unwrap_err();
    assert!(errors.contains(&MeshError::FaceTooSmall { face: 0, len: 2 }));

    // Both sides of edge 0 in face 2.
    let mut m = cube();
    let twin = m.edges[0].oriented_edges[1];
    m.oriented_edges[twin.index()].face = FaceId::new(2);
    let errors = validate_mesh(&m).unwrap_err();
    assert!(errors.contains(&MeshError::NonManifoldEdge { edge: 0, face: 2 }));
}

#[test]
fn workspace_of_cube_top() {
    let m = cube();
    let flags = vec![true, false, true, true];
    let wsp = make_push_pull_workspace(&m, FaceId::new(1), &flags);
    assert_eq!(wsp.adjacent_faces, m.adjacent_faces(FaceId::new(1)));
    assert!(!wsp.all_faces_orthogonal);
    let mut expected: Vec<FaceId> = wsp
        .adjacent_faces
        .iter()
        .zip(flags.iter())
        .filter(|(_, f)| **f)
        .map(|(a, _)| *a)
        .collect();
    expected.sort();
    assert_eq!(wsp.orthogonal_faces_sorted, expected);
    assert_eq!(wsp.vertices_of_face, m.vertices_of_face(FaceId::new(1)));
    assert_eq!(wsp.edges_of_face, m.edges_of_face(FaceId::new(1)));

    let all = make_push_pull_workspace(&m, FaceId::new(1), &vec![true; 4]);
    assert!(all.all_faces_orthogonal);
    assert_eq!(all.orthogonal_faces_sorted, vec![FaceId::new(2), FaceId::new(3), FaceId::new(4), FaceId::new(5)]);
}

#[test]
fn push_of_cube_top_is_bounded_by_the_bottom() {
    let m = cube();
    let wsp = make_push_pull_workspace(&m, FaceId::new(1), &vec![true; 4]);
    let mut limit = push_limit_vertices(&m, FaceId::new(1), &wsp);
    limit.sort();
    assert_eq!(limit, vec![VertexId::new(0), VertexId::new(1), VertexId::new(2), VertexId::new(3)]);
}

fn pulled_vertices(m: &GeoMesh, fid: FaceId, offset: Vector3<f64>) -> Vec<Vertex<Point3<f64>>> {
    m.vertices_of_face(fid)
        .iter()
        .map(|v| Vertex { position: m.vertices[v.index()].position + offset })
        .collect()
}

#[test]
fn pull_without_merges_adds_a_skirt() {
    let mut m = cube();
    let fid = FaceId::new(1);
    let pulled = pulled_vertices(&m, fid, Vector3::new(0.0, 0.0, 0.5));
    assert!(check_merges_keep_manifold(&m, fid, &vec![]));
    pull_face(&mut m, fid, pulled, &vec![]);
    assert!(validate_mesh(&m).is_ok());
    assert_normals_match(&m);
    assert_eq!(m.vertices.len(), 12);
    assert_eq!(m.edges.len(), 20);
    assert_eq!(m.oriented_edges.len(), 40);
    assert_eq!(m.faces.len(), 10);
    assert!(m.has_oes_in_own_slots());
    // The pulled face now sits on the new vertices 8..11.
    let mut vs = m.vertices_of_face(fid);
    vs.sort();
    assert_eq!(vs, vec![VertexId::new(8), VertexId::new(9), VertexId::new(10), VertexId::new(11)]);
    assert_eq!(m.vertices[8].position.z, 1.5);
}

#[test]
fn pull_merging_all_orthogonal_faces() {
    let mut m = cube();
    let fid = FaceId::new(1);
    let ortho = vec![FaceId::new(2), FaceId::new(3), FaceId::new(4), FaceId::new(5)];
    let pulled = pulled_vertices(&m, fid, Vector3::new(0.0, 0.0, 1.0));
    assert!(check_merges_keep_manifold(&m, fid, &ortho));
    pull_face(&mut m, fid, pulled, &ortho);
    assert!(validate_mesh(&m).is_ok());
    assert_normals_match(&m);
    assert_eq!(m.vertices.len(), 12);
    assert_eq!(m.edges.len(), 16);
    assert_eq!(m.oriented_edges.len(), 32);
    assert_eq!(m.faces.len(), 6);
    // Each side face gained the two corners of the old top: six corners.
    for f in 2..6 {
        assert_eq!(m.faces[f].oriented_edges.len(), 6);
    }
}

#[test]
fn pull_of_ramp_front_merges_orthogonal_neighbours() {
    let mut m = ramp();
    let fid = FaceId::new(2);
    let adjacent = m.adjacent_faces(fid);
    assert_eq!(adjacent.len(), 4);
    // Top, bottom and left are orthogonal to the front; the slanted face is not.
    let mut ortho: Vec<FaceId> = adjacent.iter().copied().filter(|f| f.index() != 3).collect();
    ortho.sort();
    assert_eq!(ortho, vec![FaceId::new(0), FaceId::new(1), FaceId::new(6)]);
    let pulled = pulled_vertices(&m, fid, Vector3::new(0.0, -0.25, 0.0));
    assert!(check_merges_keep_manifold(&m, fid, &ortho));
    pull_face(&mut m, fid, pulled, &ortho);
    assert!(validate_mesh(&m).is_ok());
    assert_eq!(m.vertices.len(), 14);
    assert_eq!(m.edges.len(), 15 + 8 - 3);
    assert_eq!(m.oriented_edges.len(), 30 + 16 - 6);
    assert_eq!(m.faces.len(), 7 + 4 - 3);
}

#[test]
fn merge_check_refuses_a_face_met_twice_in_a_row() {
    let mut m = cube();
    // Make the faces across two consecutive edges of face 1 the same face.
    let loop1 = m.faces[1].oriented_edges.clone();
    let adj = m.adjacent_faces(FaceId::new(1));
    let twin_of_second = {
        let oe = m.oriented_edges[loop1[1].index()];
        m.edges[oe.edge.index()].oriented_edges[if oe.forward { 1 } else { 0 }]
    };
    m.oriented_edges[twin_of_second.index()].face = adj[0];
    let ortho = vec![adj[0]];
    assert!(!check_merges_keep_manifold(&m, FaceId::new(1), &ortho));
    assert!(check_merges_keep_manifold(&m, FaceId::new(1), &vec![]));
}

#[test]
fn sorted_helpers() {
    let s = vec![FaceId::new(1), FaceId::new(4), FaceId::new(9)];
    assert!(contains_sorted(&s, FaceId::new(4)));
    assert!(!contains_sorted(&s, FaceId::new(5)));
    assert!(!contains_sorted(&vec![], FaceId::new(0)));
    let mut v: Vec<u32> = vec![3, 11, 7];
    assert_eq!(pop_max(&mut v), 11);
    assert_eq!(pop_max(&mut v), 7);
    assert_eq!(v, vec![3]);
}

#[test]
fn edges_of_built_cube_run_along_rings() {
    let m = cube();
    let e: &Edge = &m.edges[8];
    assert_eq!(e.vertices, [VertexId::new(0), VertexId::new(4)]);
    assert_eq!(e.oriented_edges, [OrientedEdgeId::new(16), OrientedEdgeId::new(17)]);
}

fn loop_records(m: &GeoMesh, f: usize) -> Vec<(u32, u32, bool, u32)> {
    m.faces[f]
        .oriented_edges
        .iter()
        .map(|k| {
            let oe = m.oriented_edges[k.index()];
            (k.0, oe.edge.0, oe.forward, oe.face.0)
        })
        .collect()
}

#[test]
fn pull_leaves_other_faces_alone() {
    let mut m = ramp();
    let fid = FaceId::new(2);
    let ortho = vec![FaceId::new(0), FaceId::new(1), FaceId::new(6)];
    let before: Vec<_> = [3usize, 4, 5].iter().map(|&f| loop_records(&m, f)).collect();
    let pulled = pulled_vertices(&m, fid, Vector3::new(0.0, -0.25, 0.0));
    pull_face(&mut m, fid, pulled, &ortho);
    let after: Vec<_> = [3usize, 4, 5].iter().map(|&f| loop_records(&m, f)).collect();
    assert_eq!(before, after);
    assert!(m.faces[3].normal.is_some());
    // The bottom face took in a skirt face: its loop lost the common edge
    // and gained the other three sides of the skirt face.
    assert_eq!(m.faces[1].oriented_edges.len(), 7);
}

#[test]
fn adjacency_is_symmetric() {
    for m in [cube(), ramp()] {
        for f in 0..m.faces.len() {
            let adj = m.adjacent_faces(FaceId::new(f));
            assert!(!adj.contains(&FaceId::new(f)));
            for g in adj {
                assert!(m.adjacent_faces(g).contains(&FaceId::new(f)));
            }
        }
    }
}

#[test]
fn pull_keeps_normals_and_leaves_skirts_without() {
    let mut m = ramp();
    let fid = FaceId::new(2);
    let ortho = vec![FaceId::new(0), FaceId::new(1), FaceId::new(6)];
    let before: Vec<_> = m.faces.iter().map(|f| f.normal).collect();
    let pulled = pulled_vertices(&m, fid, Vector3::new(0.0, -0.25, 0.0));
    pull_face(&mut m, fid, pulled, &ortho);
    for f in 0..7 {
        assert_eq!(m.faces[f].normal, before[f]);
    }
    assert!(m.faces[7].normal.is_none());
}

/// The (start, end) vertex pairs of the loop of face `f`, sorted.
fn sorted_sides(m: &GeoMesh, f: usize) -> Vec<(VertexId, VertexId)> {
    let vs = m.vertices_of_face(FaceId::new(f));
    let n = vs.len();
    let mut sides: Vec<(VertexId, VertexId)> = (0..n).map(|j| (vs[j], vs[(j + 1) % n])).collect();
    sides.sort();
    sides
}

#[test]
fn merged_face_takes_in_the_skirt_sides() {
    let before = cube();
    let fid = FaceId::new(1);
    let ortho = vec![FaceId::new(2)];
    let adj = before.adjacent_faces(fid);
    let i = adj.iter().position(|f| *f == FaceId::new(2)).unwrap();
    let vof = before.vertices_of_face(fid);
    let n = vof.len();
    let (v0, v1) = (vof[i], vof[(i + 1) % n]);
    let (p0, p1) = (VertexId::new(8 + i), VertexId::new(8 + (i + 1) % n));
    let mut expected: Vec<(VertexId, VertexId)> =
        sorted_sides(&before, 2).into_iter().filter(|s| *s != (v1, v0)).collect();
    expected.extend([(p1, p0), (p0, v0), (v1, p1)]);
    expected.sort();

    let mut m = cube();
    let pulled = pulled_vertices(&m, fid, Vector3::new(0.0, 0.0, 1.0));
    assert!(check_merges_keep_manifold(&m, fid, &ortho));
    pull_face(&mut m, fid, pulled, &ortho);
    assert!(validate_mesh(&m).is_ok());
    assert_eq!(sorted_sides(&m, 2), expected);
    // The faces that took in nothing keep their sides.
    for f in [0, 3, 4, 5] {
        assert_eq!(sorted_sides(&m, f), sorted_sides(&before, f));
    }
}

#[test]
fn skirt_faces_join_each_new_vertex_to_its_own_corner() {
    let before = cube();
    let fid = FaceId::new(1);
    let vof = before.vertices_of_face(fid);
    let n = vof.len();
    let mut expected: Vec<Vec<(VertexId, VertexId)>> = (0..n)
        .map(|i| {
            let (v0, v1) = (vof[i], vof[(i + 1) % n]);
            let (p0, p1) = (VertexId::new(8 + i), VertexId::new(8 + (i + 1) % n));
            let mut sides = vec![(p1, p0), (p0, v0), (v0, v1), (v1, p1)];
            sides.sort();
            sides
        })
        .collect();
    expected.sort();

    let mut m = cube();
    let pulled = pulled_vertices(&m, fid, Vector3::new(0.0, 0.0, 0.5));
    pull_face(&mut m, fid, pulled, &vec![]);
    let mut skirts: Vec<Vec<(VertexId, VertexId)>> = (6..m.faces.len()).map(|f| sorted_sides(&m, f)).collect();
    skirts.sort();
    assert_eq!(skirts, expected);
}

#[test]
fn violation_messages() {
    assert_eq!(
        describe(&MeshError::EdgeDirectionMismatch { edge: 1, slot: 0, oriented_edge: 2, forward: false }),
        "edge 1: OE slot 0 (id 2) has forward=false, expected true"
    );
    assert_eq!(
        describe(&MeshError::LoopGap { face: 3, position: 0, end_vertex: 10, next_position: 1, start_vertex: 7 }),
        "face 3: OE 0 ends at vertex 10 but OE 1 starts at vertex 7"
    );
    assert_eq!(
        describe(&MeshError::EdgeVertexOutOfRange { edge: 12, slot: 1, vertex: 99, num_vertices: 8 }),
        "edge 12: vertex slot 1 ref 99 out of range (mesh has 8 vertices)"
    );
    assert_eq!(describe(&MeshError::FaceTooSmall { face: 2, len: 2 }), "face 2: has only 2 vertices/edges");
    assert_eq!(
        describe(&MeshError::NonManifoldEdge { edge: 4, face: 5 }),
        "edge 4: both oriented edges belong to face 5 (non-manifold)"
    );
}
