//! Primitive solids. Their geometry is passed in: the corner positions
//! and the outward face normals, in the order the topology expects.

use vstd::prelude::*;

use crate::counting::lemma_partition_gives_counts;
use crate::ids::{EdgeId, FaceId, OrientedEdgeId, VertexId};
use crate::mesh::{Edge, Face, Mesh, OrientedEdge, Vertex};

verus! {

/// The edges of the cube: vertex pairs, forward and backward oriented edges.
pub open spec fn cube_edges() -> Seq<Edge> {
    seq![
        Edge { vertices: [VertexId(0), VertexId(1)], oriented_edges: [OrientedEdgeId(0), OrientedEdgeId(1)] },
        Edge { vertices: [VertexId(1), VertexId(2)], oriented_edges: [OrientedEdgeId(2), OrientedEdgeId(3)] },
        Edge { vertices: [VertexId(2), VertexId(3)], oriented_edges: [OrientedEdgeId(4), OrientedEdgeId(5)] },
        Edge { vertices: [VertexId(3), VertexId(0)], oriented_edges: [OrientedEdgeId(6), OrientedEdgeId(7)] },
        Edge { vertices: [VertexId(4), VertexId(5)], oriented_edges: [OrientedEdgeId(8), OrientedEdgeId(9)] },
        Edge { vertices: [VertexId(5), VertexId(6)], oriented_edges: [OrientedEdgeId(10), OrientedEdgeId(11)] },
        Edge { vertices: [VertexId(6), VertexId(7)], oriented_edges: [OrientedEdgeId(12), OrientedEdgeId(13)] },
        Edge { vertices: [VertexId(7), VertexId(4)], oriented_edges: [OrientedEdgeId(14), OrientedEdgeId(15)] },
        Edge { vertices: [VertexId(0), VertexId(4)], oriented_edges: [OrientedEdgeId(16), OrientedEdgeId(17)] },
        Edge { vertices: [VertexId(1), VertexId(5)], oriented_edges: [OrientedEdgeId(18), OrientedEdgeId(19)] },
        Edge { vertices: [VertexId(2), VertexId(6)], oriented_edges: [OrientedEdgeId(20), OrientedEdgeId(21)] },
        Edge { vertices: [VertexId(3), VertexId(7)], oriented_edges: [OrientedEdgeId(22), OrientedEdgeId(23)] },
    ]
}

/// The oriented edges of the cube: edge, direction and face.
pub open spec fn cube_oriented_edges() -> Seq<OrientedEdge> {
    seq![
        OrientedEdge { edge: EdgeId(0), forward: true, face: FaceId(2) },
        OrientedEdge { edge: EdgeId(0), forward: false, face: FaceId(0) },
        OrientedEdge { edge: EdgeId(1), forward: true, face: FaceId(5) },
        OrientedEdge { edge: EdgeId(1), forward: false, face: FaceId(0) },
        OrientedEdge { edge: EdgeId(2), forward: true, face: FaceId(3) },
        OrientedEdge { edge: EdgeId(2), forward: false, face: FaceId(0) },
        OrientedEdge { edge: EdgeId(3), forward: true, face: FaceId(4) },
        OrientedEdge { edge: EdgeId(3), forward: false, face: FaceId(0) },
        OrientedEdge { edge: EdgeId(4), forward: true, face: FaceId(1) },
        OrientedEdge { edge: EdgeId(4), forward: false, face: FaceId(2) },
        OrientedEdge { edge: EdgeId(5), forward: true, face: FaceId(1) },
        OrientedEdge { edge: EdgeId(5), forward: false, face: FaceId(5) },
        OrientedEdge { edge: EdgeId(6), forward: true, face: FaceId(1) },
        OrientedEdge { edge: EdgeId(6), forward: false, face: FaceId(3) },
        OrientedEdge { edge: EdgeId(7), forward: true, face: FaceId(1) },
        OrientedEdge { edge: EdgeId(7), forward: false, face: FaceId(4) },
        OrientedEdge { edge: EdgeId(8), forward: true, face: FaceId(4) },
        OrientedEdge { edge: EdgeId(8), forward: false, face: FaceId(2) },
        OrientedEdge { edge: EdgeId(9), forward: true, face: FaceId(2) },
        OrientedEdge { edge: EdgeId(9), forward: false, face: FaceId(5) },
        OrientedEdge { edge: EdgeId(10), forward: true, face: FaceId(5) },
        OrientedEdge { edge: EdgeId(10), forward: false, face: FaceId(3) },
        OrientedEdge { edge: EdgeId(11), forward: true, face: FaceId(3) },
        OrientedEdge { edge: EdgeId(11), forward: false, face: FaceId(4) },
    ]
}

/// The face loops of the cube.
pub open spec fn cube_loops() -> Seq<Seq<OrientedEdgeId>> {
    seq![
        seq![OrientedEdgeId(7), OrientedEdgeId(5), OrientedEdgeId(3), OrientedEdgeId(1)],
        seq![OrientedEdgeId(8), OrientedEdgeId(10), OrientedEdgeId(12), OrientedEdgeId(14)],
        seq![OrientedEdgeId(0), OrientedEdgeId(18), OrientedEdgeId(9), OrientedEdgeId(17)],
        seq![OrientedEdgeId(4), OrientedEdgeId(22), OrientedEdgeId(13), OrientedEdgeId(21)],
        seq![OrientedEdgeId(16), OrientedEdgeId(15), OrientedEdgeId(23), OrientedEdgeId(6)],
        seq![OrientedEdgeId(2), OrientedEdgeId(20), OrientedEdgeId(11), OrientedEdgeId(19)],
    ]
}

/// A cube with corners `positions` 0..3 on the bottom and 4..7 above them,
/// each ring counter-clockwise seen from above (for the unit cube: (0,0,0),
/// (1,0,0), (1,1,0), (0,1,0), then the same at z = 1). Faces: bottom, top,
/// front, back, left, right, with the given outward `normals`; loops wind
/// counter-clockwise seen from outside. Edge `i` has oriented edges `2i`
/// (forward) and `2i + 1` (backward).
pub fn make_cube<P: Copy, N: Copy>(positions: [P; 8], normals: [N; 6]) -> (res: Mesh<P, N>)
    ensures
        res.vertices@.len() == 8,
        forall|i: int| 0 <= i < 8 ==> #[trigger] res.vertices@[i].position == positions[i],
        res.edges@ == cube_edges(),
        res.oriented_edges@ == cube_oriented_edges(),
        res.faces@.len() == 6,
        forall|f: int| 0 <= f < 6 ==> #[trigger] res.face_loop(f) == cube_loops()[f] && res.faces@[f].normal == Some(normals[f]),
        res.is_valid(),
        res.oes_in_own_slots(),
{
    let mut vertices: Vec<Vertex<P>> = Vec::new();
    vertices.push(Vertex { position: positions[0] });
    vertices.push(Vertex { position: positions[1] });
    vertices.push(Vertex { position: positions[2] });
    vertices.push(Vertex { position: positions[3] });
    vertices.push(Vertex { position: positions[4] });
    vertices.push(Vertex { position: positions[5] });
    vertices.push(Vertex { position: positions[6] });
    vertices.push(Vertex { position: positions[7] });
    let mut edges: Vec<Edge> = Vec::new();
    edges.push(Edge { vertices: [VertexId::new(0), VertexId::new(1)], oriented_edges: [OrientedEdgeId::new(0), OrientedEdgeId::new(1)] });
    edges.push(Edge { vertices: [VertexId::new(1), VertexId::new(2)], oriented_edges: [OrientedEdgeId::new(2), OrientedEdgeId::new(3)] });
    edges.push(Edge { vertices: [VertexId::new(2), VertexId::new(3)], oriented_edges: [OrientedEdgeId::new(4), OrientedEdgeId::new(5)] });
    edges.push(Edge { vertices: [VertexId::new(3), VertexId::new(0)], oriented_edges: [OrientedEdgeId::new(6), OrientedEdgeId::new(7)] });
    edges.push(Edge { vertices: [VertexId::new(4), VertexId::new(5)], oriented_edges: [OrientedEdgeId::new(8), OrientedEdgeId::new(9)] });
    edges.push(Edge { vertices: [VertexId::new(5), VertexId::new(6)], oriented_edges: [OrientedEdgeId::new(10), OrientedEdgeId::new(11)] });
    edges.push(Edge { vertices: [VertexId::new(6), VertexId::new(7)], oriented_edges: [OrientedEdgeId::new(12), OrientedEdgeId::new(13)] });
    edges.push(Edge { vertices: [VertexId::new(7), VertexId::new(4)], oriented_edges: [OrientedEdgeId::new(14), OrientedEdgeId::new(15)] });
    edges.push(Edge { vertices: [VertexId::new(0), VertexId::new(4)], oriented_edges: [OrientedEdgeId::new(16), OrientedEdgeId::new(17)] });
    edges.push(Edge { vertices: [VertexId::new(1), VertexId::new(5)], oriented_edges: [OrientedEdgeId::new(18), OrientedEdgeId::new(19)] });
    edges.push(Edge { vertices: [VertexId::new(2), VertexId::new(6)], oriented_edges: [OrientedEdgeId::new(20), OrientedEdgeId::new(21)] });
    edges.push(Edge { vertices: [VertexId::new(3), VertexId::new(7)], oriented_edges: [OrientedEdgeId::new(22), OrientedEdgeId::new(23)] });
    let mut oriented_edges: Vec<OrientedEdge> = Vec::new();
    oriented_edges.push(OrientedEdge { edge: EdgeId::new(0), forward: true, face: FaceId::new(2) });
    oriented_edges.push(OrientedEdge { edge: EdgeId::new(0), forward: false, face: FaceId::new(0) });
    oriented_edges.push(OrientedEdge { edge: EdgeId::new(1), forward: true, face: FaceId::new(5) });
    oriented_edges.push(OrientedEdge { edge: EdgeId::new(1), forward: false, face: FaceId::new(0) });
    oriented_edges.push(OrientedEdge { edge: EdgeId::new(2), forward: true, face: FaceId::new(3) });
    oriented_edges.push(OrientedEdge { edge: EdgeId::new(2), forward: false, face: FaceId::new(0) });
    oriented_edges.push(OrientedEdge { edge: EdgeId::new(3), forward: true, face: FaceId::new(4) });
    oriented_edges.push(OrientedEdge { edge: EdgeId::new(3), forward: false, face: FaceId::new(0) });
    oriented_edges.push(OrientedEdge { edge: EdgeId::new(4), forward: true, face: FaceId::new(1) });
    oriented_edges.push(OrientedEdge { edge: EdgeId::new(4), forward: false, face: FaceId::new(2) });
    oriented_edges.push(OrientedEdge { edge: EdgeId::new(5), forward: true, face: FaceId::new(1) });
    oriented_edges.push(OrientedEdge { edge: EdgeId::new(5), forward: false, face: FaceId::new(5) });
    oriented_edges.push(OrientedEdge { edge: EdgeId::new(6), forward: true, face: FaceId::new(1) });
    oriented_edges.push(OrientedEdge { edge: EdgeId::new(6), forward: false, face: FaceId::new(3) });
    oriented_edges.push(OrientedEdge { edge: EdgeId::new(7), forward: true, face: FaceId::new(1) });
    oriented_edges.push(OrientedEdge { edge: EdgeId::new(7), forward: false, face: FaceId::new(4) });
    oriented_edges.push(OrientedEdge { edge: EdgeId::new(8), forward: true, face: FaceId::new(4) });
    oriented_edges.push(OrientedEdge { edge: EdgeId::new(8), forward: false, face: FaceId::new(2) });
    oriented_edges.push(OrientedEdge { edge: EdgeId::new(9), forward: true, face: FaceId::new(2) });
    oriented_edges.push(OrientedEdge { edge: EdgeId::new(9), forward: false, face: FaceId::new(5) });
    oriented_edges.push(OrientedEdge { edge: EdgeId::new(10), forward: true, face: FaceId::new(5) });
    oriented_edges.push(OrientedEdge { edge: EdgeId::new(10), forward: false, face: FaceId::new(3) });
    oriented_edges.push(OrientedEdge { edge: EdgeId::new(11), forward: true, face: FaceId::new(3) });
    oriented_edges.push(OrientedEdge { edge: EdgeId::new(11), forward: false, face: FaceId::new(4) });
    let mut faces: Vec<Face<N>> = Vec::new();
    faces.push(Face { oriented_edges: vec![OrientedEdgeId::new(7), OrientedEdgeId::new(5), OrientedEdgeId::new(3), OrientedEdgeId::new(1)], normal: Some(normals[0]) });
    faces.push(Face { oriented_edges: vec![OrientedEdgeId::new(8), OrientedEdgeId::new(10), OrientedEdgeId::new(12), OrientedEdgeId::new(14)], normal: Some(normals[1]) });
    faces.push(Face { oriented_edges: vec![OrientedEdgeId::new(0), OrientedEdgeId::new(18), OrientedEdgeId::new(9), OrientedEdgeId::new(17)], normal: Some(normals[2]) });
    faces.push(Face { oriented_edges: vec![OrientedEdgeId::new(4), OrientedEdgeId::new(22), OrientedEdgeId::new(13), OrientedEdgeId::new(21)], normal: Some(normals[3]) });
    faces.push(Face { oriented_edges: vec![OrientedEdgeId::new(16), OrientedEdgeId::new(15), OrientedEdgeId::new(23), OrientedEdgeId::new(6)], normal: Some(normals[4]) });
    faces.push(Face { oriented_edges: vec![OrientedEdgeId::new(2), OrientedEdgeId::new(20), OrientedEdgeId::new(11), OrientedEdgeId::new(19)], normal: Some(normals[5]) });
    let res = Mesh { vertices, edges, oriented_edges, faces };
    proof {
        assert(res.edges@ =~= cube_edges());
        assert(res.oriented_edges@ =~= cube_oriented_edges());
        assert(res.face_loop(0) =~= cube_loops()[0]);
        assert(res.face_loop(1) =~= cube_loops()[1]);
        assert(res.face_loop(2) =~= cube_loops()[2]);
        assert(res.face_loop(3) =~= cube_loops()[3]);
        assert(res.face_loop(4) =~= cube_loops()[4]);
        assert(res.face_loop(5) =~= cube_loops()[5]);
        lemma_cube_valid(res);
    }
    res
}

proof fn lemma_cube_valid<P, N>(m: Mesh<P, N>)
    requires
        m.vertices@.len() == 8,
        m.edges@ == cube_edges(),
        m.oriented_edges@ == cube_oriented_edges(),
        m.faces@.len() == 6,
        forall|f: int| 0 <= f < 6 ==> #[trigger] m.face_loop(f) == cube_loops()[f],
    ensures
        m.is_valid(),
        m.oes_in_own_slots(),
{
    let es = cube_edges();
    let os = cube_oriented_edges();
    assert(m.face_loop(0) == cube_loops()[0]);
    assert(m.face_loop(1) == cube_loops()[1]);
    assert(m.face_loop(2) == cube_loops()[2]);
    assert(m.face_loop(3) == cube_loops()[3]);
    assert(m.face_loop(4) == cube_loops()[4]);
    assert(m.face_loop(5) == cube_loops()[5]);
    assert forall|i: int, s: int| 0 <= i < m.ne() && 0 <= s < 2 implies #[trigger] m.edge_vertex_ok(i, s) && m.edge_slot_ok(i, s) by {
        assert(i == 0 || i == 1 || i == 2 || i == 3 || i == 4 || i == 5 || i == 6 || i == 7 || i == 8 || i == 9 || i == 10 || i == 11);
    }
    assert forall|k: int| 0 <= k < m.noe() implies #[trigger] m.oe_edge_ok(k) && m.oe_in_own_slot(k) by {
        assert(k == 0 || k == 1 || k == 2 || k == 3 || k == 4 || k == 5 || k == 6 || k == 7 || k == 8 || k == 9 || k == 10 || k == 11 || k == 12 || k == 13 || k == 14 || k == 15 || k == 16 || k == 17 || k == 18 || k == 19 || k == 20 || k == 21 || k == 22 || k == 23);
    }
    assert forall|k: int| 0 <= k < m.noe() implies #[trigger] m.oe_face_ok(k) by {
        if k == 0 { assert(m.face_loop(2)[0] == OrientedEdgeId(0 as u32)); }
        if k == 1 { assert(m.face_loop(0)[3] == OrientedEdgeId(1 as u32)); }
        if k == 2 { assert(m.face_loop(5)[0] == OrientedEdgeId(2 as u32)); }
        if k == 3 { assert(m.face_loop(0)[2] == OrientedEdgeId(3 as u32)); }
        if k == 4 { assert(m.face_loop(3)[0] == OrientedEdgeId(4 as u32)); }
        if k == 5 { assert(m.face_loop(0)[1] == OrientedEdgeId(5 as u32)); }
        if k == 6 { assert(m.face_loop(4)[3] == OrientedEdgeId(6 as u32)); }
        if k == 7 { assert(m.face_loop(0)[0] == OrientedEdgeId(7 as u32)); }
        if k == 8 { assert(m.face_loop(1)[0] == OrientedEdgeId(8 as u32)); }
        if k == 9 { assert(m.face_loop(2)[2] == OrientedEdgeId(9 as u32)); }
        if k == 10 { assert(m.face_loop(1)[1] == OrientedEdgeId(10 as u32)); }
        if k == 11 { assert(m.face_loop(5)[2] == OrientedEdgeId(11 as u32)); }
        if k == 12 { assert(m.face_loop(1)[2] == OrientedEdgeId(12 as u32)); }
        if k == 13 { assert(m.face_loop(3)[2] == OrientedEdgeId(13 as u32)); }
        if k == 14 { assert(m.face_loop(1)[3] == OrientedEdgeId(14 as u32)); }
        if k == 15 { assert(m.face_loop(4)[1] == OrientedEdgeId(15 as u32)); }
        if k == 16 { assert(m.face_loop(4)[0] == OrientedEdgeId(16 as u32)); }
        if k == 17 { assert(m.face_loop(2)[3] == OrientedEdgeId(17 as u32)); }
        if k == 18 { assert(m.face_loop(2)[1] == OrientedEdgeId(18 as u32)); }
        if k == 19 { assert(m.face_loop(5)[3] == OrientedEdgeId(19 as u32)); }
        if k == 20 { assert(m.face_loop(5)[1] == OrientedEdgeId(20 as u32)); }
        if k == 21 { assert(m.face_loop(3)[3] == OrientedEdgeId(21 as u32)); }
        if k == 22 { assert(m.face_loop(3)[1] == OrientedEdgeId(22 as u32)); }
        if k == 23 { assert(m.face_loop(4)[2] == OrientedEdgeId(23 as u32)); }
        assert(k == 0 || k == 1 || k == 2 || k == 3 || k == 4 || k == 5 || k == 6 || k == 7 || k == 8 || k == 9 || k == 10 || k == 11 || k == 12 || k == 13 || k == 14 || k == 15 || k == 16 || k == 17 || k == 18 || k == 19 || k == 20 || k == 21 || k == 22 || k == 23);
    }
    assert forall|f: int, j: int| 0 <= f < m.nf() && 0 <= j < m.face_loop(f).len() implies #[trigger] m.loop_entry_ok(f, j) && m.loop_step_ok(f, j) && m.oriented_edges@[m.face_loop(f)[j].0 as int].face.0 == f by {
        assert(f == 0 || f == 1 || f == 2 || f == 3 || f == 4 || f == 5);
        if f == 0 {
            assert(j == 0 || j == 1 || j == 2 || j == 3);
            assert((0int + 1) % 4 == 1 && (1int + 1) % 4 == 2 && (2int + 1) % 4 == 3 && (3int + 1) % 4 == 0);
        }
        if f == 1 {
            assert(j == 0 || j == 1 || j == 2 || j == 3);
            assert((0int + 1) % 4 == 1 && (1int + 1) % 4 == 2 && (2int + 1) % 4 == 3 && (3int + 1) % 4 == 0);
        }
        if f == 2 {
            assert(j == 0 || j == 1 || j == 2 || j == 3);
            assert((0int + 1) % 4 == 1 && (1int + 1) % 4 == 2 && (2int + 1) % 4 == 3 && (3int + 1) % 4 == 0);
        }
        if f == 3 {
            assert(j == 0 || j == 1 || j == 2 || j == 3);
            assert((0int + 1) % 4 == 1 && (1int + 1) % 4 == 2 && (2int + 1) % 4 == 3 && (3int + 1) % 4 == 0);
        }
        if f == 4 {
            assert(j == 0 || j == 1 || j == 2 || j == 3);
            assert((0int + 1) % 4 == 1 && (1int + 1) % 4 == 2 && (2int + 1) % 4 == 3 && (3int + 1) % 4 == 0);
        }
        if f == 5 {
            assert(j == 0 || j == 1 || j == 2 || j == 3);
            assert((0int + 1) % 4 == 1 && (1int + 1) % 4 == 2 && (2int + 1) % 4 == 3 && (3int + 1) % 4 == 0);
        }
    }
    assert forall|f: int, j1: int, j2: int| 0 <= f < m.nf() && 0 <= j1 < m.face_loop(f).len() && 0 <= j2 < m.face_loop(f).len() && j1 != j2 implies (#[trigger] m.face_loop(f)[j1]).0 != (#[trigger] m.face_loop(f)[j2]).0 by {
        assert(f == 0 || f == 1 || f == 2 || f == 3 || f == 4 || f == 5);
        assert(j1 == 0 || j1 == 1 || j1 == 2 || j1 == 3 || j1 == 4);
        assert(j2 == 0 || j2 == 1 || j2 == 2 || j2 == 3 || j2 == 4);
    }
    assert forall|i: int| 0 <= i < m.ne() implies #[trigger] m.edge_manifold_ok(i) by {
        assert(i == 0 || i == 1 || i == 2 || i == 3 || i == 4 || i == 5 || i == 6 || i == 7 || i == 8 || i == 9 || i == 10 || i == 11);
    }
    assert forall|f: int| 0 <= f < m.nf() implies #[trigger] m.face_loop(f).len() >= 3 by {
        assert(f == 0 || f == 1 || f == 2 || f == 3 || f == 4 || f == 5);
    }
    assert(m.loops_partition());
    lemma_partition_gives_counts(m);
}

/// The edges of the ramp: vertex pairs, forward and backward oriented edges.
pub open spec fn ramp_edges() -> Seq<Edge> {
    seq![
        Edge { vertices: [VertexId(0), VertexId(1)], oriented_edges: [OrientedEdgeId(0), OrientedEdgeId(1)] },
        Edge { vertices: [VertexId(1), VertexId(2)], oriented_edges: [OrientedEdgeId(2), OrientedEdgeId(3)] },
        Edge { vertices: [VertexId(2), VertexId(3)], oriented_edges: [OrientedEdgeId(4), OrientedEdgeId(5)] },
        Edge { vertices: [VertexId(3), VertexId(4)], oriented_edges: [OrientedEdgeId(6), OrientedEdgeId(7)] },
        Edge { vertices: [VertexId(4), VertexId(0)], oriented_edges: [OrientedEdgeId(8), OrientedEdgeId(9)] },
        Edge { vertices: [VertexId(5), VertexId(6)], oriented_edges: [OrientedEdgeId(10), OrientedEdgeId(11)] },
        Edge { vertices: [VertexId(6), VertexId(7)], oriented_edges: [OrientedEdgeId(12), OrientedEdgeId(13)] },
        Edge { vertices: [VertexId(7), VertexId(8)], oriented_edges: [OrientedEdgeId(14), OrientedEdgeId(15)] },
        Edge { vertices: [VertexId(8), VertexId(9)], oriented_edges: [OrientedEdgeId(16), OrientedEdgeId(17)] },
        Edge { vertices: [VertexId(9), VertexId(5)], oriented_edges: [OrientedEdgeId(18), OrientedEdgeId(19)] },
        Edge { vertices: [VertexId(0), VertexId(5)], oriented_edges: [OrientedEdgeId(20), OrientedEdgeId(21)] },
        Edge { vertices: [VertexId(1), VertexId(6)], oriented_edges: [OrientedEdgeId(22), OrientedEdgeId(23)] },
        Edge { vertices: [VertexId(2), VertexId(7)], oriented_edges: [OrientedEdgeId(24), OrientedEdgeId(25)] },
        Edge { vertices: [VertexId(3), VertexId(8)], oriented_edges: [OrientedEdgeId(26), OrientedEdgeId(27)] },
        Edge { vertices: [VertexId(4), VertexId(9)], oriented_edges: [OrientedEdgeId(28), OrientedEdgeId(29)] },
    ]
}

/// The oriented edges of the ramp: edge, direction and face.
pub open spec fn ramp_oriented_edges() -> Seq<OrientedEdge> {
    seq![
        OrientedEdge { edge: EdgeId(0), forward: true, face: FaceId(0) },
        OrientedEdge { edge: EdgeId(0), forward: false, face: FaceId(2) },
        OrientedEdge { edge: EdgeId(1), forward: true, face: FaceId(0) },
        OrientedEdge { edge: EdgeId(1), forward: false, face: FaceId(3) },
        OrientedEdge { edge: EdgeId(2), forward: true, face: FaceId(0) },
        OrientedEdge { edge: EdgeId(2), forward: false, face: FaceId(4) },
        OrientedEdge { edge: EdgeId(3), forward: true, face: FaceId(0) },
        OrientedEdge { edge: EdgeId(3), forward: false, face: FaceId(5) },
        OrientedEdge { edge: EdgeId(4), forward: true, face: FaceId(0) },
        OrientedEdge { edge: EdgeId(4), forward: false, face: FaceId(6) },
        OrientedEdge { edge: EdgeId(5), forward: true, face: FaceId(2) },
        OrientedEdge { edge: EdgeId(5), forward: false, face: FaceId(1) },
        OrientedEdge { edge: EdgeId(6), forward: true, face: FaceId(3) },
        OrientedEdge { edge: EdgeId(6), forward: false, face: FaceId(1) },
        OrientedEdge { edge: EdgeId(7), forward: true, face: FaceId(4) },
        OrientedEdge { edge: EdgeId(7), forward: false, face: FaceId(1) },
        OrientedEdge { edge: EdgeId(8), forward: true, face: FaceId(5) },
        OrientedEdge { edge: EdgeId(8), forward: false, face: FaceId(1) },
        OrientedEdge { edge: EdgeId(9), forward: true, face: FaceId(6) },
        OrientedEdge { edge: EdgeId(9), forward: false, face: FaceId(1) },
        OrientedEdge { edge: EdgeId(10), forward: true, face: FaceId(2) },
        OrientedEdge { edge: EdgeId(10), forward: false, face: FaceId(6) },
        OrientedEdge { edge: EdgeId(11), forward: true, face: FaceId(3) },
        OrientedEdge { edge: EdgeId(11), forward: false, face: FaceId(2) },
        OrientedEdge { edge: EdgeId(12), forward: true, face: FaceId(4) },
        OrientedEdge { edge: EdgeId(12), forward: false, face: FaceId(3) },
        OrientedEdge { edge: EdgeId(13), forward: true, face: FaceId(5) },
        OrientedEdge { edge: EdgeId(13), forward: false, face: FaceId(4) },
        OrientedEdge { edge: EdgeId(14), forward: true, face: FaceId(6) },
        OrientedEdge { edge: EdgeId(14), forward: false, face: FaceId(5) },
    ]
}

/// The face loops of the ramp.
pub open spec fn ramp_loops() -> Seq<Seq<OrientedEdgeId>> {
    seq![
        seq![OrientedEdgeId(0), OrientedEdgeId(2), OrientedEdgeId(4), OrientedEdgeId(6), OrientedEdgeId(8)],
        seq![OrientedEdgeId(19), OrientedEdgeId(17), OrientedEdgeId(15), OrientedEdgeId(13), OrientedEdgeId(11)],
        seq![OrientedEdgeId(20), OrientedEdgeId(10), OrientedEdgeId(23), OrientedEdgeId(1)],
        seq![OrientedEdgeId(22), OrientedEdgeId(12), OrientedEdgeId(25), OrientedEdgeId(3)],
        seq![OrientedEdgeId(24), OrientedEdgeId(14), OrientedEdgeId(27), OrientedEdgeId(5)],
        seq![OrientedEdgeId(26), OrientedEdgeId(16), OrientedEdgeId(29), OrientedEdgeId(7)],
        seq![OrientedEdgeId(28), OrientedEdgeId(18), OrientedEdgeId(21), OrientedEdgeId(9)],
    ]
}

/// A ramp: the five-cornered profile `positions` 0..4 on top, counter-clockwise
/// seen from above, extruded down to `positions` 5..9 (for the ramp of the
/// viewer: (0,0), (2,0), (1,0.5), (1,1), (0,1) at z = 1 and z = 0). Faces:
/// top, bottom, then the five sides from the edge 0..1 on, with the given
/// outward `normals`. Edge `i` has oriented edges `2i` (forward) and `2i + 1`
/// (backward).
pub fn make_ramp<P: Copy, N: Copy>(positions: [P; 10], normals: [N; 7]) -> (res: Mesh<P, N>)
    ensures
        res.vertices@.len() == 10,
        forall|i: int| 0 <= i < 10 ==> #[trigger] res.vertices@[i].position == positions[i],
        res.edges@ == ramp_edges(),
        res.oriented_edges@ == ramp_oriented_edges(),
        res.faces@.len() == 7,
        forall|f: int| 0 <= f < 7 ==> #[trigger] res.face_loop(f) == ramp_loops()[f] && res.faces@[f].normal == Some(normals[f]),
        res.is_valid(),
        res.oes_in_own_slots(),
{
    let mut vertices: Vec<Vertex<P>> = Vec::new();
    vertices.push(Vertex { position: positions[0] });
    vertices.push(Vertex { position: positions[1] });
    vertices.push(Vertex { position: positions[2] });
    vertices.push(Vertex { position: positions[3] });
    vertices.push(Vertex { position: positions[4] });
    vertices.push(Vertex { position: positions[5] });
    vertices.push(Vertex { position: positions[6] });
    vertices.push(Vertex { position: positions[7] });
    vertices.push(Vertex { position: positions[8] });
    vertices.push(Vertex { position: positions[9] });
    let mut edges: Vec<Edge> = Vec::new();
    edges.push(Edge { vertices: [VertexId::new(0), VertexId::new(1)], oriented_edges: [OrientedEdgeId::new(0), OrientedEdgeId::new(1)] });
    edges.push(Edge { vertices: [VertexId::new(1), VertexId::new(2)], oriented_edges: [OrientedEdgeId::new(2), OrientedEdgeId::new(3)] });
    edges.push(Edge { vertices: [VertexId::new(2), VertexId::new(3)], oriented_edges: [OrientedEdgeId::new(4), OrientedEdgeId::new(5)] });
    edges.push(Edge { vertices: [VertexId::new(3), VertexId::new(4)], oriented_edges: [OrientedEdgeId::new(6), OrientedEdgeId::new(7)] });
    edges.push(Edge { vertices: [VertexId::new(4), VertexId::new(0)], oriented_edges: [OrientedEdgeId::new(8), OrientedEdgeId::new(9)] });
    edges.push(Edge { vertices: [VertexId::new(5), VertexId::new(6)], oriented_edges: [OrientedEdgeId::new(10), OrientedEdgeId::new(11)] });
    edges.push(Edge { vertices: [VertexId::new(6), VertexId::new(7)], oriented_edges: [OrientedEdgeId::new(12), OrientedEdgeId::new(13)] });
    edges.push(Edge { vertices: [VertexId::new(7), VertexId::new(8)], oriented_edges: [OrientedEdgeId::new(14), OrientedEdgeId::new(15)] });
    edges.push(Edge { vertices: [VertexId::new(8), VertexId::new(9)], oriented_edges: [OrientedEdgeId::new(16), OrientedEdgeId::new(17)] });
    edges.push(Edge { vertices: [VertexId::new(9), VertexId::new(5)], oriented_edges: [OrientedEdgeId::new(18), OrientedEdgeId::new(19)] });
    edges.push(Edge { vertices: [VertexId::new(0), VertexId::new(5)], oriented_edges: [OrientedEdgeId::new(20), OrientedEdgeId::new(21)] });
    edges.push(Edge { vertices: [VertexId::new(1), VertexId::new(6)], oriented_edges: [OrientedEdgeId::new(22), OrientedEdgeId::new(23)] });
    edges.push(Edge { vertices: [VertexId::new(2), VertexId::new(7)], oriented_edges: [OrientedEdgeId::new(24), OrientedEdgeId::new(25)] });
    edges.push(Edge { vertices: [VertexId::new(3), VertexId::new(8)], oriented_edges: [OrientedEdgeId::new(26), OrientedEdgeId::new(27)] });
    edges.push(Edge { vertices: [VertexId::new(4), VertexId::new(9)], oriented_edges: [OrientedEdgeId::new(28), OrientedEdgeId::new(29)] });
    let mut oriented_edges: Vec<OrientedEdge> = Vec::new();
    oriented_edges.push(OrientedEdge { edge: EdgeId::new(0), forward: true, face: FaceId::new(0) });
    oriented_edges.push(OrientedEdge { edge: EdgeId::new(0), forward: false, face: FaceId::new(2) });
    oriented_edges.push(OrientedEdge { edge: EdgeId::new(1), forward: true, face: FaceId::new(0) });
    oriented_edges.push(OrientedEdge { edge: EdgeId::new(1), forward: false, face: FaceId::new(3) });
    oriented_edges.push(OrientedEdge { edge: EdgeId::new(2), forward: true, face: FaceId::new(0) });
    oriented_edges.push(OrientedEdge { edge: EdgeId::new(2), forward: false, face: FaceId::new(4) });
    oriented_edges.push(OrientedEdge { edge: EdgeId::new(3), forward: true, face: FaceId::new(0) });
    oriented_edges.push(OrientedEdge { edge: EdgeId::new(3), forward: false, face: FaceId::new(5) });
    oriented_edges.push(OrientedEdge { edge: EdgeId::new(4), forward: true, face: FaceId::new(0) });
    oriented_edges.push(OrientedEdge { edge: EdgeId::new(4), forward: false, face: FaceId::new(6) });
    oriented_edges.push(OrientedEdge { edge: EdgeId::new(5), forward: true, face: FaceId::new(2) });
    oriented_edges.push(OrientedEdge { edge: EdgeId::new(5), forward: false, face: FaceId::new(1) });
    oriented_edges.push(OrientedEdge { edge: EdgeId::new(6), forward: true, face: FaceId::new(3) });
    oriented_edges.push(OrientedEdge { edge: EdgeId::new(6), forward: false, face: FaceId::new(1) });
    oriented_edges.push(OrientedEdge { edge: EdgeId::new(7), forward: true, face: FaceId::new(4) });
    oriented_edges.push(OrientedEdge { edge: EdgeId::new(7), forward: false, face: FaceId::new(1) });
    oriented_edges.push(OrientedEdge { edge: EdgeId::new(8), forward: true, face: FaceId::new(5) });
    oriented_edges.push(OrientedEdge { edge: EdgeId::new(8), forward: false, face: FaceId::new(1) });
    oriented_edges.push(OrientedEdge { edge: EdgeId::new(9), forward: true, face: FaceId::new(6) });
    oriented_edges.push(OrientedEdge { edge: EdgeId::new(9), forward: false, face: FaceId::new(1) });
    oriented_edges.push(OrientedEdge { edge: EdgeId::new(10), forward: true, face: FaceId::new(2) });
    oriented_edges.push(OrientedEdge { edge: EdgeId::new(10), forward: false, face: FaceId::new(6) });
    oriented_edges.push(OrientedEdge { edge: EdgeId::new(11), forward: true, face: FaceId::new(3) });
    oriented_edges.push(OrientedEdge { edge: EdgeId::new(11), forward: false, face: FaceId::new(2) });
    oriented_edges.push(OrientedEdge { edge: EdgeId::new(12), forward: true, face: FaceId::new(4) });
    oriented_edges.push(OrientedEdge { edge: EdgeId::new(12), forward: false, face: FaceId::new(3) });
    oriented_edges.push(OrientedEdge { edge: EdgeId::new(13), forward: true, face: FaceId::new(5) });
    oriented_edges.push(OrientedEdge { edge: EdgeId::new(13), forward: false, face: FaceId::new(4) });
    oriented_edges.push(OrientedEdge { edge: EdgeId::new(14), forward: true, face: FaceId::new(6) });
    oriented_edges.push(OrientedEdge { edge: EdgeId::new(14), forward: false, face: FaceId::new(5) });
    let mut faces: Vec<Face<N>> = Vec::new();
    faces.push(Face { oriented_edges: vec![OrientedEdgeId::new(0), OrientedEdgeId::new(2), OrientedEdgeId::new(4), OrientedEdgeId::new(6), OrientedEdgeId::new(8)], normal: Some(normals[0]) });
    faces.push(Face { oriented_edges: vec![OrientedEdgeId::new(19), OrientedEdgeId::new(17), OrientedEdgeId::new(15), OrientedEdgeId::new(13), OrientedEdgeId::new(11)], normal: Some(normals[1]) });
    faces.push(Face { oriented_edges: vec![OrientedEdgeId::new(20), OrientedEdgeId::new(10), OrientedEdgeId::new(23), OrientedEdgeId::new(1)], normal: Some(normals[2]) });
    faces.push(Face { oriented_edges: vec![OrientedEdgeId::new(22), OrientedEdgeId::new(12), OrientedEdgeId::new(25), OrientedEdgeId::new(3)], normal: Some(normals[3]) });
    faces.push(Face { oriented_edges: vec![OrientedEdgeId::new(24), OrientedEdgeId::new(14), OrientedEdgeId::new(27), OrientedEdgeId::new(5)], normal: Some(normals[4]) });
    faces.push(Face { oriented_edges: vec![OrientedEdgeId::new(26), OrientedEdgeId::new(16), OrientedEdgeId::new(29), OrientedEdgeId::new(7)], normal: Some(normals[5]) });
    faces.push(Face { oriented_edges: vec![OrientedEdgeId::new(28), OrientedEdgeId::new(18), OrientedEdgeId::new(21), OrientedEdgeId::new(9)], normal: Some(normals[6]) });
    let res = Mesh { vertices, edges, oriented_edges, faces };
    proof {
        assert(res.edges@ =~= ramp_edges());
        assert(res.oriented_edges@ =~= ramp_oriented_edges());
        assert(res.face_loop(0) =~= ramp_loops()[0]);
        assert(res.face_loop(1) =~= ramp_loops()[1]);
        assert(res.face_loop(2) =~= ramp_loops()[2]);
        assert(res.face_loop(3) =~= ramp_loops()[3]);
        assert(res.face_loop(4) =~= ramp_loops()[4]);
        assert(res.face_loop(5) =~= ramp_loops()[5]);
        assert(res.face_loop(6) =~= ramp_loops()[6]);
        lemma_ramp_valid(res);
    }
    res
}

proof fn lemma_ramp_valid<P, N>(m: Mesh<P, N>)
    requires
        m.vertices@.len() == 10,
        m.edges@ == ramp_edges(),
        m.oriented_edges@ == ramp_oriented_edges(),
        m.faces@.len() == 7,
        forall|f: int| 0 <= f < 7 ==> #[trigger] m.face_loop(f) == ramp_loops()[f],
    ensures
        m.is_valid(),
        m.oes_in_own_slots(),
{
    let es = ramp_edges();
    let os = ramp_oriented_edges();
    assert(m.face_loop(0) == ramp_loops()[0]);
    assert(m.face_loop(1) == ramp_loops()[1]);
    assert(m.face_loop(2) == ramp_loops()[2]);
    assert(m.face_loop(3) == ramp_loops()[3]);
    assert(m.face_loop(4) == ramp_loops()[4]);
    assert(m.face_loop(5) == ramp_loops()[5]);
    assert(m.face_loop(6) == ramp_loops()[6]);
    assert forall|i: int, s: int| 0 <= i < m.ne() && 0 <= s < 2 implies #[trigger] m.edge_vertex_ok(i, s) && m.edge_slot_ok(i, s) by {
        assert(i == 0 || i == 1 || i == 2 || i == 3 || i == 4 || i == 5 || i == 6 || i == 7 || i == 8 || i == 9 || i == 10 || i == 11 || i == 12 || i == 13 || i == 14);
    }
    assert forall|k: int| 0 <= k < m.noe() implies #[trigger] m.oe_edge_ok(k) && m.oe_in_own_slot(k) by {
        assert(k == 0 || k == 1 || k == 2 || k == 3 || k == 4 || k == 5 || k == 6 || k == 7 || k == 8 || k == 9 || k == 10 || k == 11 || k == 12 || k == 13 || k == 14 || k == 15 || k == 16 || k == 17 || k == 18 || k == 19 || k == 20 || k == 21 || k == 22 || k == 23 || k == 24 || k == 25 || k == 26 || k == 27 || k == 28 || k == 29);
    }
    assert forall|k: int| 0 <= k < m.noe() implies #[trigger] m.oe_face_ok(k) by {
        if k == 0 { assert(m.face_loop(0)[0] == OrientedEdgeId(0 as u32)); }
        if k == 1 { assert(m.face_loop(2)[3] == OrientedEdgeId(1 as u32)); }
        if k == 2 { assert(m.face_loop(0)[1] == OrientedEdgeId(2 as u32)); }
        if k == 3 { assert(m.face_loop(3)[3] == OrientedEdgeId(3 as u32)); }
        if k == 4 { assert(m.face_loop(0)[2] == OrientedEdgeId(4 as u32)); }
        if k == 5 { assert(m.face_loop(4)[3] == OrientedEdgeId(5 as u32)); }
        if k == 6 { assert(m.face_loop(0)[3] == OrientedEdgeId(6 as u32)); }
        if k == 7 { assert(m.face_loop(5)[3] == OrientedEdgeId(7 as u32)); }
        if k == 8 { assert(m.face_loop(0)[4] == OrientedEdgeId(8 as u32)); }
        if k == 9 { assert(m.face_loop(6)[3] == OrientedEdgeId(9 as u32)); }
        if k == 10 { assert(m.face_loop(2)[1] == OrientedEdgeId(10 as u32)); }
        if k == 11 { assert(m.face_loop(1)[4] == OrientedEdgeId(11 as u32)); }
        if k == 12 { assert(m.face_loop(3)[1] == OrientedEdgeId(12 as u32)); }
        if k == 13 { assert(m.face_loop(1)[3] == OrientedEdgeId(13 as u32)); }
        if k == 14 { assert(m.face_loop(4)[1] == OrientedEdgeId(14 as u32)); }
        if k == 15 { assert(m.face_loop(1)[2] == OrientedEdgeId(15 as u32)); }
        if k == 16 { assert(m.face_loop(5)[1] == OrientedEdgeId(16 as u32)); }
        if k == 17 { assert(m.face_loop(1)[1] == OrientedEdgeId(17 as u32)); }
        if k == 18 { assert(m.face_loop(6)[1] == OrientedEdgeId(18 as u32)); }
        if k == 19 { assert(m.face_loop(1)[0] == OrientedEdgeId(19 as u32)); }
        if k == 20 { assert(m.face_loop(2)[0] == OrientedEdgeId(20 as u32)); }
        if k == 21 { assert(m.face_loop(6)[2] == OrientedEdgeId(21 as u32)); }
        if k == 22 { assert(m.face_loop(3)[0] == OrientedEdgeId(22 as u32)); }
        if k == 23 { assert(m.face_loop(2)[2] == OrientedEdgeId(23 as u32)); }
        if k == 24 { assert(m.face_loop(4)[0] == OrientedEdgeId(24 as u32)); }
        if k == 25 { assert(m.face_loop(3)[2] == OrientedEdgeId(25 as u32)); }
        if k == 26 { assert(m.face_loop(5)[0] == OrientedEdgeId(26 as u32)); }
        if k == 27 { assert(m.face_loop(4)[2] == OrientedEdgeId(27 as u32)); }
        if k == 28 { assert(m.face_loop(6)[0] == OrientedEdgeId(28 as u32)); }
        if k == 29 { assert(m.face_loop(5)[2] == OrientedEdgeId(29 as u32)); }
        assert(k == 0 || k == 1 || k == 2 || k == 3 || k == 4 || k == 5 || k == 6 || k == 7 || k == 8 || k == 9 || k == 10 || k == 11 || k == 12 || k == 13 || k == 14 || k == 15 || k == 16 || k == 17 || k == 18 || k == 19 || k == 20 || k == 21 || k == 22 || k == 23 || k == 24 || k == 25 || k == 26 || k == 27 || k == 28 || k == 29);
    }
    assert forall|f: int, j: int| 0 <= f < m.nf() && 0 <= j < m.face_loop(f).len() implies #[trigger] m.loop_entry_ok(f, j) && m.loop_step_ok(f, j) && m.oriented_edges@[m.face_loop(f)[j].0 as int].face.0 == f by {
        assert(f == 0 || f == 1 || f == 2 || f == 3 || f == 4 || f == 5 || f == 6);
        if f == 0 {
            assert(j == 0 || j == 1 || j == 2 || j == 3 || j == 4);
            assert((0int + 1) % 5 == 1 && (1int + 1) % 5 == 2 && (2int + 1) % 5 == 3 && (4int + 1) % 5 == 0);
            assert((3int + 1) % 5 == 4);
        }
        if f == 1 {
            assert(j == 0 || j == 1 || j == 2 || j == 3 || j == 4);
            assert((0int + 1) % 5 == 1 && (1int + 1) % 5 == 2 && (2int + 1) % 5 == 3 && (4int + 1) % 5 == 0);
            assert((3int + 1) % 5 == 4);
        }
        if f == 2 {
            assert(j == 0 || j == 1 || j == 2 || j == 3);
            assert((0int + 1) % 4 == 1 && (1int + 1) % 4 == 2 && (2int + 1) % 4 == 3 && (3int + 1) % 4 == 0);
        }
        if f == 3 {
            assert(j == 0 || j == 1 || j == 2 || j == 3);
            assert((0int + 1) % 4 == 1 && (1int + 1) % 4 == 2 && (2int + 1) % 4 == 3 && (3int + 1) % 4 == 0);
        }
        if f == 4 {
            assert(j == 0 || j == 1 || j == 2 || j == 3);
            assert((0int + 1) % 4 == 1 && (1int + 1) % 4 == 2 && (2int + 1) % 4 == 3 && (3int + 1) % 4 == 0);
        }
        if f == 5 {
            assert(j == 0 || j == 1 || j == 2 || j == 3);
            assert((0int + 1) % 4 == 1 && (1int + 1) % 4 == 2 && (2int + 1) % 4 == 3 && (3int + 1) % 4 == 0);
        }
        if f == 6 {
            assert(j == 0 || j == 1 || j == 2 || j == 3);
            assert((0int + 1) % 4 == 1 && (1int + 1) % 4 == 2 && (2int + 1) % 4 == 3 && (3int + 1) % 4 == 0);
        }
    }
    assert forall|f: int, j1: int, j2: int| 0 <= f < m.nf() && 0 <= j1 < m.face_loop(f).len() && 0 <= j2 < m.face_loop(f).len() && j1 != j2 implies (#[trigger] m.face_loop(f)[j1]).0 != (#[trigger] m.face_loop(f)[j2]).0 by {
        assert(f == 0 || f == 1 || f == 2 || f == 3 || f == 4 || f == 5 || f == 6);
        assert(j1 == 0 || j1 == 1 || j1 == 2 || j1 == 3 || j1 == 4);
        assert(j2 == 0 || j2 == 1 || j2 == 2 || j2 == 3 || j2 == 4);
    }
    assert forall|i: int| 0 <= i < m.ne() implies #[trigger] m.edge_manifold_ok(i) by {
        assert(i == 0 || i == 1 || i == 2 || i == 3 || i == 4 || i == 5 || i == 6 || i == 7 || i == 8 || i == 9 || i == 10 || i == 11 || i == 12 || i == 13 || i == 14);
    }
    assert forall|f: int| 0 <= f < m.nf() implies #[trigger] m.face_loop(f).len() >= 3 by {
        assert(f == 0 || f == 1 || f == 2 || f == 3 || f == 4 || f == 5 || f == 6);
    }
    assert(m.loops_partition());
    lemma_partition_gives_counts(m);
}

} // verus!
