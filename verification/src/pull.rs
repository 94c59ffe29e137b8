//! The topological part of pulling a face outwards when some adjacent face is
//! not orthogonal to it: the face is lifted onto new vertices, a skirt of
//! quadrilaterals joins it to the old boundary, skirt faces that continue an
//! orthogonal neighbour are merged into it, and the arenas are compacted.

use vstd::prelude::*;
use vstd::multiset::Multiset;

use crate::compact::{
    live_edge, live_face, live_oe, position_of, remove_dead_edge, remove_dead_face,
    remove_dead_oriented_edge, valid_live,
    lemma_valid_live_gives_valid,
};
use crate::counting::lemma_valid_gives_partition;
use crate::ids::{EdgeId, FaceId, OrientedEdgeId, VertexId};
use crate::mesh::{Edge, Face, Mesh, OrientedEdge, Vertex};
use crate::sides::{
    faces_sides, loop_sides, side, sides, sum_range, lemma_sides_merged, lemma_sides_same, lemma_sum_ext,
    lemma_sum_one_changed,
};

verus! {

pub open spec fn next_index(i: int, n: int) -> int {
    if i + 1 == n {
        0
    } else {
        i + 1
    }
}

pub open spec fn prev_index(i: int, n: int) -> int {
    if i == 0 {
        n - 1
    } else {
        i - 1
    }
}

pub proof fn lemma_next_index(j: int, n: int)
    requires
        0 <= j < n,
    ensures
        (j + 1) % n == next_index(j, n),
{
    if j + 1 == n {
        vstd::arithmetic::div_mod::lemma_mod_self_0(n);
    } else {
        vstd::arithmetic::div_mod::lemma_small_mod((j + 1) as nat, n as nat);
    }
}

/// Edge `i` of the lifted ring: from new vertex `i` to new vertex `i + 1`,
/// used forward by the pulled face and backward by skirt face `i`.
pub open spec fn top_edge<P, N>(m: Mesh<P, N>, fid: int, i: int) -> Edge {
    let n = m.face_loop(fid).len() as int;
    Edge {
        vertices: [VertexId((m.nv() + i) as u32), VertexId((m.nv() + next_index(i, n)) as u32)],
        oriented_edges: [m.face_loop(fid)[i], OrientedEdgeId((m.noe() + 4 * i) as u32)],
    }
}

/// Skirt edge `i`: from new vertex `i` down to the old start vertex of ring
/// entry `i`, used forward by skirt face `i` and backward by skirt face `i - 1`.
pub open spec fn skirt_edge<P, N>(m: Mesh<P, N>, fid: int, i: int) -> Edge {
    let n = m.face_loop(fid).len() as int;
    Edge {
        vertices: [
            VertexId((m.nv() + i) as u32),
            m.start_vertex(m.face_loop(fid)[i].0 as int),
        ],
        oriented_edges: [
            OrientedEdgeId((m.noe() + 4 * i + 1) as u32),
            OrientedEdgeId((m.noe() + 4 * prev_index(i, n) + 3) as u32),
        ],
    }
}

/// The old edge of ring entry `i`, whose slot of that entry now holds the
/// bottom oriented edge of skirt face `i`.
pub open spec fn bottom_edge<P, N>(m: Mesh<P, N>, fid: int, i: int) -> Edge {
    let k = m.face_loop(fid)[i].0 as int;
    let e = m.edge_of(k);
    let b = OrientedEdgeId((m.noe() + 4 * i + 2) as u32);
    if m.oriented_edges@[k].forward {
        Edge { vertices: e.vertices, oriented_edges: [b, e.oriented_edges[1]] }
    } else {
        Edge { vertices: e.vertices, oriented_edges: [e.oriented_edges[0], b] }
    }
}

/// Oriented edge `r` (top, down, bottom, up) of skirt face `i`.
pub open spec fn skirt_oe<P, N>(m: Mesh<P, N>, fid: int, i: int, r: int) -> OrientedEdge {
    let n = m.face_loop(fid).len() as int;
    let k = m.face_loop(fid)[i].0 as int;
    let f = FaceId((m.nf() + i) as u32);
    if r == 0 {
        OrientedEdge { edge: EdgeId((m.ne() + i) as u32), forward: false, face: f }
    } else if r == 1 {
        OrientedEdge { edge: EdgeId((m.ne() + n + i) as u32), forward: true, face: f }
    } else if r == 2 {
        OrientedEdge {
            edge: m.oriented_edges@[k].edge,
            forward: m.oriented_edges@[k].forward,
            face: f,
        }
    } else {
        OrientedEdge {
            edge: EdgeId((m.ne() + n + next_index(i, n)) as u32),
            forward: false,
            face: f,
        }
    }
}

/// Ring entry `i` after the lift: forward along top edge `i`, still in face `fid`.
pub open spec fn lifted_oe<P, N>(m: Mesh<P, N>, fid: int, i: int) -> OrientedEdge {
    OrientedEdge { edge: EdgeId((m.ne() + i) as u32), forward: true, face: FaceId(fid as u32) }
}

/// Whether oriented edge `k` is an entry of the loop of face `fid`.
pub open spec fn in_ring<P, N>(m: Mesh<P, N>, fid: int, k: int) -> bool {
    exists|i: int| 0 <= i < m.face_loop(fid).len() && #[trigger] m.face_loop(fid)[i].0 == k
}

/// Whether edge `e` is the edge of an entry of the loop of face `fid`.
pub open spec fn on_ring<P, N>(m: Mesh<P, N>, fid: int, e: int) -> bool {
    exists|i: int|
        0 <= i < m.face_loop(fid).len() && #[trigger] m.oriented_edges@[m.face_loop(
            fid,
        )[i].0 as int].edge.0 == e
}

/// `e` is `m` with face `fid` lifted onto new vertices and joined to its old
/// boundary by a skirt of quadrilateral faces, one per loop entry.
pub open spec fn is_extrusion<P, N>(m: Mesh<P, N>, e: Mesh<P, N>, fid: int) -> bool {
    let n = m.face_loop(fid).len() as int;
    &&& e.nv() == m.nv() + n
    &&& e.ne() == m.ne() + 2 * n
    &&& e.noe() == m.noe() + 4 * n
    &&& e.nf() == m.nf() + n
    &&& forall|x: int| 0 <= x < m.ne() && !on_ring(m, fid, x) ==> #[trigger] e.edges@[x] == m.edges@[x]
    &&& forall|i: int|
        0 <= i < n ==> #[trigger] e.edges@[m.oriented_edges@[m.face_loop(fid)[i].0 as int].edge.0 as int]
            == bottom_edge(m, fid, i)
    &&& forall|i: int| 0 <= i < n ==> #[trigger] e.edges@[m.ne() + i] == top_edge(m, fid, i)
    &&& forall|i: int| 0 <= i < n ==> #[trigger] e.edges@[m.ne() + n + i] == skirt_edge(m, fid, i)
    &&& forall|k: int|
        0 <= k < m.noe() && !in_ring(m, fid, k) ==> #[trigger] e.oriented_edges@[k]
            == m.oriented_edges@[k]
    &&& forall|i: int|
        0 <= i < n ==> #[trigger] e.oriented_edges@[m.face_loop(fid)[i].0 as int] == lifted_oe(
            m,
            fid,
            i,
        )
    &&& forall|i: int, r: int|
        0 <= i < n && 0 <= r < 4 ==> #[trigger] e.oriented_edges@[m.noe() + 4 * i + r] == skirt_oe(
            m,
            fid,
            i,
            r,
        )
    &&& forall|f: int| 0 <= f < m.nf() ==> #[trigger] e.faces@[f] == m.faces@[f]
    &&& forall|i: int|
        0 <= i < n ==> (#[trigger] e.faces@[m.nf() + i]).oriented_edges@ == seq![
            OrientedEdgeId((m.noe() + 4 * i) as u32),
            OrientedEdgeId((m.noe() + 4 * i + 1) as u32),
            OrientedEdgeId((m.noe() + 4 * i + 2) as u32),
            OrientedEdgeId((m.noe() + 4 * i + 3) as u32),
        ] && e.faces@[m.nf() + i].normal is None
}

/// In a valid mesh whose oriented edges occupy their edges' slots, the
/// entries of a face loop lie on pairwise different edges, and the twin of
/// each entry lies in another face.
pub proof fn lemma_ring_edges_distinct<P, N>(m: Mesh<P, N>, fid: int)
    requires
        m.is_valid(),
        m.oes_in_own_slots(),
        0 <= fid < m.nf(),
    ensures
        forall|i: int, j: int|
            0 <= i < m.face_loop(fid).len() && 0 <= j < m.face_loop(fid).len() && i != j
                ==> #[trigger] m.oriented_edges@[m.face_loop(fid)[i].0 as int].edge
                != #[trigger] m.oriented_edges@[m.face_loop(fid)[j].0 as int].edge,
        forall|i: int|
            0 <= i < m.face_loop(fid).len() ==> #[trigger] m.oriented_edges@[m.twin(
                m.face_loop(fid)[i].0 as int,
            ).0 as int].face.0 != fid,
        forall|i: int|
            0 <= i < m.face_loop(fid).len() ==> !in_ring(
                m,
                fid,
                #[trigger] m.twin(m.face_loop(fid)[i].0 as int).0 as int,
            ),
{
    lemma_valid_gives_partition(m);
    let l = m.face_loop(fid);
    assert forall|i: int|
        0 <= i < l.len() implies #[trigger] m.oriented_edges@[m.twin(l[i].0 as int).0 as int].face.0
        != fid && !in_ring(m, fid, m.twin(l[i].0 as int).0 as int) by {
        let k = l[i].0 as int;
        assert(m.loop_entry_ok(fid, i));
        assert(m.oe_edge_ok(k));
        assert(m.oe_in_own_slot(k));
        let e = m.oriented_edges@[k].edge.0 as int;
        assert(m.edge_manifold_ok(e));
        assert(m.edge_slot_ok(e, 0));
        assert(m.edge_slot_ok(e, 1));
        let t = m.twin(k).0 as int;
        if in_ring(m, fid, t) {
            let j = choose|j: int| 0 <= j < l.len() && #[trigger] l[j].0 == t;
            assert(m.oriented_edges@[l[j].0 as int].face.0 == fid);
        }
    }
    assert forall|i: int, j: int|
        0 <= i < l.len() && 0 <= j < l.len() && i != j implies #[trigger] m.oriented_edges@[l[i].0 as int].edge
        != #[trigger] m.oriented_edges@[l[j].0 as int].edge by {
        let ki = l[i].0 as int;
        let kj = l[j].0 as int;
        assert(m.loop_entry_ok(fid, i));
        assert(m.loop_entry_ok(fid, j));
        assert(ki != kj);
        assert(m.oe_in_own_slot(ki));
        assert(m.oe_in_own_slot(kj));
        if m.oriented_edges@[ki].edge == m.oriented_edges@[kj].edge {
            let e = m.oriented_edges@[ki].edge.0 as int;
            assert(m.oe_edge_ok(ki));
            assert(m.edge_manifold_ok(e));
            assert(m.oriented_edges@[ki].face.0 == fid);
            assert(m.oriented_edges@[kj].face.0 == fid);
        }
    }
}

/// Lifts face `fid` onto the `pulled` vertices (one per loop entry, in loop
/// order) and adds the skirt: the new edges, oriented edges and faces are
/// appended after the existing ones.
#[verifier::rlimit(40)]
fn extrude<P, N>(
    mesh: &mut Mesh<P, N>,
    fid: FaceId,
    pulled: Vec<Vertex<P>>,
    lp: &Vec<OrientedEdgeId>,
    vof: &Vec<VertexId>,
    eof: &Vec<EdgeId>,
)
    requires
        old(mesh).is_valid(),
        old(mesh).oes_in_own_slots(),
        fid.0 < old(mesh).nf(),
        lp@ == old(mesh).face_loop(fid.0 as int),
        vof@ == Seq::new(lp@.len(), |j: int| old(mesh).start_vertex(lp@[j].0 as int)),
        eof@ == Seq::new(lp@.len(), |j: int| old(mesh).oriented_edges@[lp@[j].0 as int].edge),
        pulled@.len() == lp@.len(),
        old(mesh).nv() + lp@.len() <= u32::MAX,
        old(mesh).ne() + 2 * lp@.len() < u32::MAX,
        old(mesh).noe() + 4 * lp@.len() < u32::MAX,
        old(mesh).nf() + lp@.len() < u32::MAX,
    ensures
        is_extrusion(*old(mesh), *final(mesh), fid.0 as int),
        final(mesh).vertices@ == old(mesh).vertices@ + pulled@,
{
    let ghost m = *mesh;
    let ghost fi = fid.0 as int;
    proof {
        lemma_ring_edges_distinct(m, fi);
        lemma_valid_gives_partition(m);
    }
    let n = lp.len();
    let first_v = mesh.vertices.len();
    let ne = mesh.edges.len();
    let no = mesh.oriented_edges.len();
    let nf = mesh.faces.len();
    let ghost pv = pulled@;
    let mut pulled = pulled;
    mesh.vertices.append(&mut pulled);
    // The former directions of the ring entries.
    let mut fw: Vec<bool> = Vec::new();
    let mut i: usize = 0;
    while i < n
        invariant
            n == lp@.len(),
            lp@ == m.face_loop(fi),
            0 <= fi < m.nf(),
            m.is_valid(),
            mesh.oriented_edges@ == m.oriented_edges@,
            i <= n,
            fw@ == Seq::new(i as nat, |j: int| m.oriented_edges@[lp@[j].0 as int].forward),
        decreases n - i,
    {
        assert(m.loop_entry_ok(fi, i as int));
        fw.push(mesh.oriented_edges[lp[i].index()].forward);
        i = i + 1;
        assert(fw@ =~= Seq::new(i as nat, |j: int| m.oriented_edges@[lp@[j].0 as int].forward));
    }

    // The lifted ring of edges.
    let mut i: usize = 0;
    while i < n
        invariant
            n == lp@.len(),
            lp@ == m.face_loop(fi),
            ne == m.ne(),
            first_v == m.nv(),
            no == m.noe(),
            m.noe() + 4 * n < u32::MAX,
            m.nv() + n <= u32::MAX,
            i <= n,
            mesh.edges@.len() == ne + i,
            forall|x: int| 0 <= x < ne ==> #[trigger] mesh.edges@[x] == m.edges@[x],
            forall|t: int| 0 <= t < i ==> #[trigger] mesh.edges@[ne + t] == top_edge(m, fi, t),
            mesh.oriented_edges@ == m.oriented_edges@,
            mesh.faces@ == m.faces@,
            mesh.vertices@ == m.vertices@ + pv,
        decreases n - i,
    {
        let next = if i + 1 == n {
            0
        } else {
            i + 1
        };
        let v0 = VertexId::new(first_v + i);
        let v1 = VertexId::new(first_v + next);
        let b = OrientedEdgeId::new(no + 4 * i);
        mesh.edges.push(Edge { vertices: [v0, v1], oriented_edges: [lp[i], b] });
        assert(mesh.edges@[ne + i] == top_edge(m, fi, i as int));
        i = i + 1;
    }

    // The skirt edges, going from the lifted ring down to the old boundary.
    let mut i: usize = 0;
    while i < n
        invariant
            n == lp@.len(),
            lp@ == m.face_loop(fi),
            vof@ == Seq::new(lp@.len(), |j: int| m.start_vertex(lp@[j].0 as int)),
            ne == m.ne(),
            first_v == m.nv(),
            no == m.noe(),
            m.noe() + 4 * n < u32::MAX,
            m.nv() + n <= u32::MAX,
            i <= n,
            mesh.edges@.len() == ne + n + i,
            forall|x: int| 0 <= x < ne ==> #[trigger] mesh.edges@[x] == m.edges@[x],
            forall|t: int| 0 <= t < n ==> #[trigger] mesh.edges@[ne + t] == top_edge(m, fi, t),
            forall|t: int| 0 <= t < i ==> #[trigger] mesh.edges@[ne + n + t] == skirt_edge(m, fi, t),
            mesh.oriented_edges@ == m.oriented_edges@,
            mesh.faces@ == m.faces@,
            mesh.vertices@ == m.vertices@ + pv,
        decreases n - i,
    {
        let prev = if i == 0 {
            n - 1
        } else {
            i - 1
        };
        let down = OrientedEdgeId::new(no + 4 * i + 1);
        let up = OrientedEdgeId::new(no + 4 * prev + 3);
        mesh.edges.push(
            Edge { vertices: [VertexId::new(first_v + i), vof[i]], oriented_edges: [down, up] },
        );
        assert(mesh.edges@[ne + n + i] == skirt_edge(m, fi, i as int));
        i = i + 1;
    }

    assert forall|t: int| 0 <= t < n implies (#[trigger] eof@[t]).0 < ne by {
        assert(m.loop_entry_ok(fi, t));
        assert(m.oe_edge_ok(lp@[t].0 as int));
    }
    // Each old boundary edge hands the slot of the ring entry to the bottom
    // oriented edge of its skirt face; the ring entry moves onto the lifted edge.
    let mut i: usize = 0;
    while i < n
        invariant
            m.is_valid(),
            m.oes_in_own_slots(),
            m.loops_partition(),
            0 <= fi < m.nf(),
            fid.0 == fi,
            n == lp@.len(),
            lp@ == m.face_loop(fi),
            eof@ == Seq::new(lp@.len(), |j: int| m.oriented_edges@[lp@[j].0 as int].edge),
            ne == m.ne(),
            no == m.noe(),
            m.noe() + 4 * n < u32::MAX,
            m.ne() + 2 * n < u32::MAX,
            i <= n,
            mesh.edges@.len() == ne + 2 * n,
            mesh.oriented_edges@.len() == no,
            forall|t: int| 0 <= t < n ==> (#[trigger] eof@[t]).0 < ne,
            forall|t: int, u: int|
                0 <= t < n && 0 <= u < n && t != u ==> #[trigger] m.oriented_edges@[m.face_loop(
                    fi,
                )[t].0 as int].edge != #[trigger] m.oriented_edges@[m.face_loop(fi)[u].0 as int].edge,
            forall|x: int|
                0 <= x < ne && !on_ring(m, fi, x) ==> #[trigger] mesh.edges@[x] == m.edges@[x],
            forall|t: int|
                0 <= t < n ==> #[trigger] mesh.edges@[eof@[t].0 as int] == (if t < i {
                    bottom_edge(m, fi, t)
                } else {
                    m.edges@[eof@[t].0 as int]
                }),
            forall|t: int| 0 <= t < n ==> #[trigger] mesh.edges@[ne + t] == top_edge(m, fi, t),
            forall|t: int| 0 <= t < n ==> #[trigger] mesh.edges@[ne + n + t] == skirt_edge(m, fi, t),
            forall|k: int|
                0 <= k < no && !in_ring(m, fi, k) ==> #[trigger] mesh.oriented_edges@[k]
                    == m.oriented_edges@[k],
            forall|t: int|
                0 <= t < n ==> #[trigger] mesh.oriented_edges@[lp@[t].0 as int] == (if t < i {
                    lifted_oe(m, fi, t)
                } else {
                    m.oriented_edges@[lp@[t].0 as int]
                }),
            mesh.faces@ == m.faces@,
            mesh.vertices@ == m.vertices@ + pv,
        decreases n - i,
    {
        assert(m.loop_entry_ok(fi, i as int));
        assert(m.oe_edge_ok(lp@[i as int].0 as int));
        let ghost prev = *mesh;
        let e = mesh.edges[eof[i].index()];
        let o = mesh.oriented_edges[lp[i].index()];
        let b = OrientedEdgeId::new(no + 4 * i + 2);
        let bottom = if o.forward {
            Edge { vertices: e.vertices, oriented_edges: [b, e.oriented_edges[1]] }
        } else {
            Edge { vertices: e.vertices, oriented_edges: [e.oriented_edges[0], b] }
        };
        assert(bottom == bottom_edge(m, fi, i as int));
        mesh.edges.set(eof[i].index(), bottom);
        mesh.oriented_edges.set(
            lp[i].index(),
            OrientedEdge { edge: EdgeId::new(ne + i), forward: true, face: fid },
        );
        assert(mesh.oriented_edges@[lp@[i as int].0 as int] == lifted_oe(m, fi, i as int));
        assert forall|t: int| 0 <= t < n implies #[trigger] mesh.oriented_edges@[lp@[t].0 as int]
            == (if t < i + 1 {
            lifted_oe(m, fi, t)
        } else {
            m.oriented_edges@[lp@[t].0 as int]
        }) by {
            assert(prev.oriented_edges@[lp@[t].0 as int] == (if t < i {
                lifted_oe(m, fi, t)
            } else {
                m.oriented_edges@[lp@[t].0 as int]
            }));
            if t != i {
                assert(m.face_loop(fi)[t].0 != m.face_loop(fi)[i as int].0);
                assert(m.loop_entry_ok(fi, t));
            }
        }
        assert forall|t: int| 0 <= t < n implies #[trigger] mesh.edges@[eof@[t].0 as int] == (if t
            < i + 1 {
            bottom_edge(m, fi, t)
        } else {
            m.edges@[eof@[t].0 as int]
        }) by {
            assert(prev.edges@[eof@[t].0 as int] == (if t < i {
                bottom_edge(m, fi, t)
            } else {
                m.edges@[eof@[t].0 as int]
            }));
            if t != i {
                assert(eof@[t] == m.oriented_edges@[m.face_loop(fi)[t].0 as int].edge);
            }
        }
        assert forall|x: int| 0 <= x < ne && !on_ring(m, fi, x) implies #[trigger] mesh.edges@[x]
            == m.edges@[x] by {
            assert(prev.edges@[x] == m.edges@[x]);
            if x == eof@[i as int].0 {
                assert(m.oriented_edges@[m.face_loop(fi)[i as int].0 as int].edge.0 == x);
            }
        }
        assert forall|k: int| 0 <= k < no && !in_ring(m, fi, k) implies #[trigger] mesh.oriented_edges@[k]
            == m.oriented_edges@[k] by {
            assert(prev.oriented_edges@[k] == m.oriented_edges@[k]);
            if k == lp@[i as int].0 {
                assert(m.face_loop(fi)[i as int].0 == k);
            }
        }
        i = i + 1;
    }

    // The skirt faces and their oriented edges.
    let ghost m3 = *mesh;
    let mut i: usize = 0;
    while i < n
        invariant
            0 <= fi < m.nf(),
            n == lp@.len(),
            lp@ == m.face_loop(fi),
            eof@ == Seq::new(lp@.len(), |j: int| m.oriented_edges@[lp@[j].0 as int].edge),
            fw@ == Seq::new(n as nat, |j: int| m.oriented_edges@[lp@[j].0 as int].forward),
            ne == m.ne(),
            no == m.noe(),
            nf == m.nf(),
            m.noe() + 4 * n < u32::MAX,
            m.ne() + 2 * n < u32::MAX,
            m.nf() + n < u32::MAX,
            i <= n,
            mesh.oriented_edges@.len() == no + 4 * i,
            mesh.faces@.len() == nf + i,
            mesh.vertices@ == m3.vertices@,
            mesh.edges@ == m3.edges@,
            m3.noe() == no,
            m3.faces@ == m.faces@,
            forall|k: int| 0 <= k < no ==> #[trigger] mesh.oriented_edges@[k] == m3.oriented_edges@[k],
            forall|t: int, r: int|
                0 <= t < i && 0 <= r < 4 ==> #[trigger] mesh.oriented_edges@[no + 4 * t + r]
                    == skirt_oe(m, fi, t, r),
            forall|f: int| 0 <= f < nf ==> #[trigger] mesh.faces@[f] == m.faces@[f],
            forall|t: int|
                0 <= t < i ==> (#[trigger] mesh.faces@[nf + t]).oriented_edges@ == seq![
                    OrientedEdgeId((no + 4 * t) as u32),
                    OrientedEdgeId((no + 4 * t + 1) as u32),
                    OrientedEdgeId((no + 4 * t + 2) as u32),
                    OrientedEdgeId((no + 4 * t + 3) as u32),
                ] && mesh.faces@[nf + t].normal is None,
        decreases n - i,
    {
        let next = if i + 1 == n {
            0
        } else {
            i + 1
        };
        let skirt_face_id = FaceId::new(nf + i);
        let first_oedge_id = no + 4 * i;
        let o0 = OrientedEdgeId::new(first_oedge_id);
        let o1 = OrientedEdgeId::new(first_oedge_id + 1);
        let o2 = OrientedEdgeId::new(first_oedge_id + 2);
        let o3 = OrientedEdgeId::new(first_oedge_id + 3);
        // Top edge
        mesh.oriented_edges.push(
            OrientedEdge { edge: EdgeId::new(ne + i), forward: false, face: skirt_face_id },
        );
        // Skirt edge from top to bottom.
        mesh.oriented_edges.push(
            OrientedEdge { edge: EdgeId::new(ne + n + i), forward: true, face: skirt_face_id },
        );
        // Bottom edge, the former edge of the moved face, keeping its orientation.
        mesh.oriented_edges.push(OrientedEdge { edge: eof[i], forward: fw[i], face: skirt_face_id });
        // Skirt edge from bottom to top.
        mesh.oriented_edges.push(
            OrientedEdge { edge: EdgeId::new(ne + n + next), forward: false, face: skirt_face_id },
        );
        mesh.faces.push(Face { oriented_edges: vec![o0, o1, o2, o3], normal: None });
        assert forall|r: int| 0 <= r < 4 implies #[trigger] mesh.oriented_edges@[no + 4 * i + r]
            == skirt_oe(m, fi, i as int, r) by {}
        i = i + 1;
    }
    proof {
        assert forall|t: int| 0 <= t < n implies #[trigger] mesh.edges@[m.oriented_edges@[m.face_loop(
            fi,
        )[t].0 as int].edge.0 as int] == bottom_edge(m, fi, t) by {
            assert(eof@[t] == m.oriented_edges@[m.face_loop(fi)[t].0 as int].edge);
            assert(m3.edges@[eof@[t].0 as int] == bottom_edge(m, fi, t));
        }
        assert forall|t: int| 0 <= t < n implies #[trigger] mesh.oriented_edges@[m.face_loop(
            fi,
        )[t].0 as int] == lifted_oe(m, fi, t) by {
            assert(m.loop_entry_ok(fi, t));
            assert(m3.oriented_edges@[lp@[t].0 as int] == lifted_oe(m, fi, t));
        }
    }
}

/// The situation in which a face is lifted: a valid mesh, its oriented edges
/// in their own slots, room for the new ids, and `e` its extrusion.
pub open spec fn extrusion_ctx<P, N>(m: Mesh<P, N>, e: Mesh<P, N>, fid: int) -> bool {
    let n = m.face_loop(fid).len() as int;
    &&& m.is_valid()
    &&& m.oes_in_own_slots()
    &&& m.loops_partition()
    &&& 0 <= fid < m.nf()
    &&& m.nv() + n <= u32::MAX
    &&& m.ne() + 2 * n < u32::MAX
    &&& m.noe() + 4 * n < u32::MAX
    &&& m.nf() + n < u32::MAX
    &&& is_extrusion(m, e, fid)
}

/// Facts about the ring of face `fid` in the mesh before the pull.
pub proof fn lemma_ring_facts<P, N>(m: Mesh<P, N>, e: Mesh<P, N>, fid: int)
    requires
        extrusion_ctx(m, e, fid),
    ensures
        m.face_loop(fid).len() >= 3,
        forall|i: int|
            0 <= i < m.face_loop(fid).len() ==> #[trigger] m.face_loop(fid)[i].0 < m.noe()
                && m.oriented_edges@[m.face_loop(fid)[i].0 as int].face.0 == fid
                && m.oriented_edges@[m.face_loop(fid)[i].0 as int].edge.0 < m.ne(),
        forall|k: int|
            0 <= k < m.noe() ==> (in_ring(m, fid, k) <==> (#[trigger] m.oriented_edges@[k]).face.0
                == fid),
        forall|i: int, j: int|
            0 <= i < m.face_loop(fid).len() && 0 <= j < m.face_loop(fid).len() && i != j
                ==> #[trigger] m.oriented_edges@[m.face_loop(fid)[i].0 as int].edge
                != #[trigger] m.oriented_edges@[m.face_loop(fid)[j].0 as int].edge,
        forall|i: int|
            0 <= i < m.face_loop(fid).len() ==> #[trigger] m.end_vertex(m.face_loop(fid)[i].0 as int)
                == m.start_vertex(m.face_loop(fid)[next_index(i, m.face_loop(fid).len() as int)].0 as int),
        forall|i: int|
            0 <= i < m.face_loop(fid).len() ==> #[trigger] m.twin(m.face_loop(fid)[i].0 as int).0
                < m.noe() && m.oriented_edges@[m.twin(m.face_loop(fid)[i].0 as int).0 as int].face.0
                != fid && m.oriented_edges@[m.twin(m.face_loop(fid)[i].0 as int).0 as int].edge
                == m.oriented_edges@[m.face_loop(fid)[i].0 as int].edge
                && m.oriented_edges@[m.twin(m.face_loop(fid)[i].0 as int).0 as int].forward
                != m.oriented_edges@[m.face_loop(fid)[i].0 as int].forward,
{
    let l = m.face_loop(fid);
    let n = l.len() as int;
    lemma_ring_edges_distinct(m, fid);
    assert(l.len() >= 3);
    assert forall|i: int| 0 <= i < n implies #[trigger] l[i].0 < m.noe()
        && m.oriented_edges@[l[i].0 as int].face.0 == fid && m.oriented_edges@[l[i].0 as int].edge.0
        < m.ne() by {
        assert(m.loop_entry_ok(fid, i));
        assert(m.oe_edge_ok(l[i].0 as int));
    }
    assert forall|k: int| 0 <= k < m.noe() implies (in_ring(m, fid, k) <==> (
    #[trigger] m.oriented_edges@[k]).face.0 == fid) by {
        if m.oriented_edges@[k].face.0 == fid {
            assert(m.oe_face_ok(k));
            let j = choose|j: int| 0 <= j < l.len() && l[j] == OrientedEdgeId(k as u32);
            assert(l[j].0 == k);
        }
        if in_ring(m, fid, k) {
            let j = choose|j: int| 0 <= j < l.len() && #[trigger] l[j].0 == k;
            assert(m.loop_entry_ok(fid, j));
        }
    }
    assert forall|i: int| 0 <= i < n implies #[trigger] m.end_vertex(l[i].0 as int) == m.start_vertex(
        l[next_index(i, n)].0 as int,
    ) by {
        assert(m.loop_step_ok(fid, i));
        lemma_next_index(i, n);
    }
    assert forall|i: int| 0 <= i < n implies #[trigger] m.twin(l[i].0 as int).0 < m.noe()
        && m.oriented_edges@[m.twin(l[i].0 as int).0 as int].face.0 != fid
        && m.oriented_edges@[m.twin(l[i].0 as int).0 as int].edge == m.oriented_edges@[l[i].0 as int].edge
        && m.oriented_edges@[m.twin(l[i].0 as int).0 as int].forward
        != m.oriented_edges@[l[i].0 as int].forward by {
        let k = l[i].0 as int;
        assert(m.loop_entry_ok(fid, i));
        assert(m.oe_edge_ok(k));
        let x = m.oriented_edges@[k].edge.0 as int;
        assert(m.edge_slot_ok(x, 0));
        assert(m.edge_slot_ok(x, 1));
    }
}


pub open spec fn edge_fully_ok<P, N>(e: Mesh<P, N>, x: int) -> bool {
    &&& e.edge_vertex_ok(x, 0)
    &&& e.edge_vertex_ok(x, 1)
    &&& e.edge_slot_ok(x, 0)
    &&& e.edge_slot_ok(x, 1)
    &&& e.edge_manifold_ok(x)
}

proof fn lemma_ext_old_edge<P, N>(m: Mesh<P, N>, e: Mesh<P, N>, fid: int, x: int)
    requires
        extrusion_ctx(m, e, fid),
        0 <= x < m.ne(),
        !on_ring(m, fid, x),
    ensures
        edge_fully_ok(e, x),
{
    lemma_ring_facts(m, e, fid);
    let l = m.face_loop(fid);
    let n = l.len() as int;
    assert(e.edges@[x] == m.edges@[x]);
    assert(m.edge_vertex_ok(x, 0));
    assert(m.edge_vertex_ok(x, 1));
    assert(m.edge_slot_ok(x, 0));
    assert(m.edge_slot_ok(x, 1));
    assert(m.edge_manifold_ok(x));
    let o0 = m.edges@[x].oriented_edges[0].0 as int;
    let o1 = m.edges@[x].oriented_edges[1].0 as int;
    if in_ring(m, fid, o0) {
        let i = choose|i: int| 0 <= i < n && #[trigger] l[i].0 == o0;
        assert(m.oriented_edges@[l[i].0 as int].edge.0 == x);
    }
    if in_ring(m, fid, o1) {
        let i = choose|i: int| 0 <= i < n && #[trigger] l[i].0 == o1;
        assert(m.oriented_edges@[l[i].0 as int].edge.0 == x);
    }
    assert(e.oriented_edges@[o0] == m.oriented_edges@[o0]);
    assert(e.oriented_edges@[o1] == m.oriented_edges@[o1]);
}

proof fn lemma_ext_bottom_edge<P, N>(m: Mesh<P, N>, e: Mesh<P, N>, fid: int, i: int)
    requires
        extrusion_ctx(m, e, fid),
        0 <= i < m.face_loop(fid).len(),
    ensures
        edge_fully_ok(e, m.oriented_edges@[m.face_loop(fid)[i].0 as int].edge.0 as int),
{
    lemma_ring_facts(m, e, fid);
    let l = m.face_loop(fid);
    let n = l.len() as int;
    let k = l[i].0 as int;
    let x = m.oriented_edges@[k].edge.0 as int;
    assert(e.edges@[m.oriented_edges@[l[i].0 as int].edge.0 as int] == bottom_edge(m, fid, i));
    assert(m.edge_vertex_ok(x, 0));
    assert(m.edge_vertex_ok(x, 1));
    let t = m.twin(k).0 as int;
    assert(m.twin(l[i].0 as int).0 < m.noe());
    assert(!in_ring(m, fid, t));
    assert(m.oe_face_ok(t));
    assert(e.oriented_edges@[t] == m.oriented_edges@[t]);
    assert(e.oriented_edges@[m.noe() + 4 * i + 2] == skirt_oe(m, fid, i, 2));
    assert(m.edge_slot_ok(x, 0));
    assert(m.edge_slot_ok(x, 1));
}

proof fn lemma_ext_top_edge<P, N>(m: Mesh<P, N>, e: Mesh<P, N>, fid: int, i: int)
    requires
        extrusion_ctx(m, e, fid),
        0 <= i < m.face_loop(fid).len(),
    ensures
        edge_fully_ok(e, m.ne() + i),
{
    lemma_ring_facts(m, e, fid);
    assert(e.edges@[m.ne() + i] == top_edge(m, fid, i));
    assert(e.oriented_edges@[m.face_loop(fid)[i].0 as int] == lifted_oe(m, fid, i));
    assert(e.oriented_edges@[m.noe() + 4 * i + 0] == skirt_oe(m, fid, i, 0));
}

proof fn lemma_ext_skirt_edge<P, N>(m: Mesh<P, N>, e: Mesh<P, N>, fid: int, i: int)
    requires
        extrusion_ctx(m, e, fid),
        0 <= i < m.face_loop(fid).len(),
    ensures
        edge_fully_ok(e, m.ne() + m.face_loop(fid).len() + i),
{
    lemma_ring_facts(m, e, fid);
    let l = m.face_loop(fid);
    let n = l.len() as int;
    let p = prev_index(i, n);
    assert(e.edges@[m.ne() + n + i] == skirt_edge(m, fid, i));
    assert(e.oriented_edges@[m.noe() + 4 * i + 1] == skirt_oe(m, fid, i, 1));
    assert(e.oriented_edges@[m.noe() + 4 * p + 3] == skirt_oe(m, fid, p, 3));
    let k = l[i].0 as int;
    let x0 = m.oriented_edges@[k].edge.0 as int;
    assert(m.edge_vertex_ok(x0, 0));
    assert(m.edge_vertex_ok(x0, 1));
}

/// The edges of an extrusion are valid.
pub proof fn lemma_extrusion_edges<P, N>(m: Mesh<P, N>, e: Mesh<P, N>, fid: int)
    requires
        extrusion_ctx(m, e, fid),
    ensures
        forall|x: int| 0 <= x < e.ne() ==> #[trigger] edge_fully_ok(e, x),
{
    let l = m.face_loop(fid);
    let n = l.len() as int;
    assert forall|x: int| 0 <= x < e.ne() implies #[trigger] edge_fully_ok(e, x) by {
        if x < m.ne() {
            if on_ring(m, fid, x) {
                let i = choose|i: int|
                    0 <= i < n && #[trigger] m.oriented_edges@[l[i].0 as int].edge.0 == x;
                lemma_ext_bottom_edge(m, e, fid, i);
            } else {
                lemma_ext_old_edge(m, e, fid, x);
            }
        } else if x < m.ne() + n {
            lemma_ext_top_edge(m, e, fid, x - m.ne());
        } else {
            lemma_ext_skirt_edge(m, e, fid, x - m.ne() - n);
        }
    }
}

pub open spec fn oe_fully_ok<P, N>(e: Mesh<P, N>, k: int) -> bool {
    &&& e.oe_edge_ok(k)
    &&& e.oe_in_own_slot(k)
    &&& e.oe_face_ok(k)
}

proof fn lemma_ext_old_oe<P, N>(m: Mesh<P, N>, e: Mesh<P, N>, fid: int, k: int)
    requires
        extrusion_ctx(m, e, fid),
        0 <= k < m.noe(),
        !in_ring(m, fid, k),
    ensures
        oe_fully_ok(e, k),
{
    lemma_ring_facts(m, e, fid);
    let l = m.face_loop(fid);
    let n = l.len() as int;
    assert(e.oriented_edges@[k] == m.oriented_edges@[k]);
    assert(m.oe_edge_ok(k));
    assert(m.oe_in_own_slot(k));
    assert(m.oe_face_ok(k));
    let x = m.oriented_edges@[k].edge.0 as int;
    let g = m.oriented_edges@[k].face.0 as int;
    assert(g != fid);
    assert(e.faces@[g] == m.faces@[g]);
    if on_ring(m, fid, x) {
        let i = choose|i: int| 0 <= i < n && #[trigger] m.oriented_edges@[l[i].0 as int].edge.0 == x;
        assert(e.edges@[m.oriented_edges@[l[i].0 as int].edge.0 as int] == bottom_edge(m, fid, i));
        assert(m.oe_in_own_slot(l[i].0 as int));
        assert(l[i].0 != k);
    } else {
        assert(e.edges@[x] == m.edges@[x]);
    }
}

proof fn lemma_ext_ring_oe<P, N>(m: Mesh<P, N>, e: Mesh<P, N>, fid: int, i: int)
    requires
        extrusion_ctx(m, e, fid),
        0 <= i < m.face_loop(fid).len(),
    ensures
        oe_fully_ok(e, m.face_loop(fid)[i].0 as int),
{
    lemma_ring_facts(m, e, fid);
    let l = m.face_loop(fid);
    assert(e.oriented_edges@[l[i].0 as int] == lifted_oe(m, fid, i));
    assert(e.edges@[m.ne() + i] == top_edge(m, fid, i));
    assert(e.faces@[fid] == m.faces@[fid]);
    assert(l[i] == OrientedEdgeId((l[i].0 as int) as u32));
}

proof fn lemma_ext_skirt_oe<P, N>(m: Mesh<P, N>, e: Mesh<P, N>, fid: int, i: int, r: int)
    requires
        extrusion_ctx(m, e, fid),
        0 <= i < m.face_loop(fid).len(),
        0 <= r < 4,
    ensures
        oe_fully_ok(e, m.noe() + 4 * i + r),
{
    lemma_ring_facts(m, e, fid);
    let l = m.face_loop(fid);
    let n = l.len() as int;
    let k = m.noe() + 4 * i + r;
    assert(e.oriented_edges@[m.noe() + 4 * i + r] == skirt_oe(m, fid, i, r));
    let sl = e.faces@[m.nf() + i].oriented_edges@;
    assert(sl[r] == OrientedEdgeId(k as u32));
    if r == 0 {
        assert(e.edges@[m.ne() + i] == top_edge(m, fid, i));
    } else if r == 1 {
        assert(e.edges@[m.ne() + n + i] == skirt_edge(m, fid, i));
    } else if r == 2 {
        assert(e.edges@[m.oriented_edges@[l[i].0 as int].edge.0 as int] == bottom_edge(m, fid, i));
    } else {
        let j = next_index(i, n);
        assert(prev_index(j, n) == i);
        assert(e.edges@[m.ne() + n + j] == skirt_edge(m, fid, j));
    }
}

/// The oriented edges of an extrusion are valid.
pub proof fn lemma_extrusion_oes<P, N>(m: Mesh<P, N>, e: Mesh<P, N>, fid: int)
    requires
        extrusion_ctx(m, e, fid),
    ensures
        forall|k: int| 0 <= k < e.noe() ==> #[trigger] oe_fully_ok(e, k),
{
    let l = m.face_loop(fid);
    let n = l.len() as int;
    assert forall|k: int| 0 <= k < e.noe() implies #[trigger] oe_fully_ok(e, k) by {
        if k < m.noe() {
            if in_ring(m, fid, k) {
                let i = choose|i: int| 0 <= i < n && #[trigger] l[i].0 == k;
                lemma_ext_ring_oe(m, e, fid, i);
            } else {
                lemma_ext_old_oe(m, e, fid, k);
            }
        } else {
            let i = (k - m.noe()) / 4;
            let r = (k - m.noe()) % 4;
            assert(k == m.noe() + 4 * i + r);
            lemma_ext_skirt_oe(m, e, fid, i, r);
        }
    }
}

pub open spec fn face_fully_ok<P, N>(e: Mesh<P, N>, f: int) -> bool {
    &&& e.face_loop(f).len() >= 3
    &&& forall|j: int|
        0 <= j < e.face_loop(f).len() ==> #[trigger] e.loop_entry_ok(f, j)
            && e.oriented_edges@[e.face_loop(f)[j].0 as int].face.0 == f && e.loop_step_ok(f, j)
    &&& forall|j1: int, j2: int|
        0 <= j1 < e.face_loop(f).len() && 0 <= j2 < e.face_loop(f).len() && j1 != j2 ==> (
        #[trigger] e.face_loop(f)[j1]).0 != (#[trigger] e.face_loop(f)[j2]).0
}

proof fn lemma_ext_old_face<P, N>(m: Mesh<P, N>, e: Mesh<P, N>, fid: int, f: int)
    requires
        extrusion_ctx(m, e, fid),
        0 <= f < m.nf(),
        f != fid,
    ensures
        face_fully_ok(e, f),
{
    lemma_ring_facts(m, e, fid);
    let l = m.face_loop(fid);
    let n = l.len() as int;
    assert(e.faces@[f] == m.faces@[f]);
    let lf = m.face_loop(f);
    assert forall|k: int| 0 <= k < m.noe() && (#[trigger] m.oriented_edges@[k]).face.0 == f implies e.start_vertex(k)
        == m.start_vertex(k) && e.end_vertex(k) == m.end_vertex(k) && e.oriented_edges@[k]
        == m.oriented_edges@[k] by {
        assert(!in_ring(m, fid, k));
        assert(m.oe_edge_ok(k));
        let x = m.oriented_edges@[k].edge.0 as int;
        if on_ring(m, fid, x) {
            let i = choose|i: int|
                0 <= i < n && #[trigger] m.oriented_edges@[l[i].0 as int].edge.0 == x;
            assert(e.edges@[m.oriented_edges@[l[i].0 as int].edge.0 as int] == bottom_edge(m, fid, i));
        } else {
            assert(e.edges@[x] == m.edges@[x]);
        }
    }
    assert forall|j: int| 0 <= j < lf.len() implies #[trigger] e.loop_entry_ok(f, j)
        && e.oriented_edges@[e.face_loop(f)[j].0 as int].face.0 == f && e.loop_step_ok(f, j) by {
        assert(m.loop_entry_ok(f, j));
        assert(m.loop_step_ok(f, j));
        let j2 = (j + 1) % (lf.len() as int);
        assert(m.loop_entry_ok(f, j2));
        assert(m.oriented_edges@[lf[j].0 as int].face.0 == f);
        assert(m.oriented_edges@[lf[j2].0 as int].face.0 == f);
    }
    assert forall|j1: int, j2: int|
        0 <= j1 < lf.len() && 0 <= j2 < lf.len() && j1 != j2 implies (
        #[trigger] e.face_loop(f)[j1]).0 != (#[trigger] e.face_loop(f)[j2]).0 by {
        assert(m.face_loop(f)[j1].0 != m.face_loop(f)[j2].0);
    }
    assert(m.face_loop(f).len() >= 3);
}

proof fn lemma_ext_lifted_face<P, N>(m: Mesh<P, N>, e: Mesh<P, N>, fid: int)
    requires
        extrusion_ctx(m, e, fid),
    ensures
        face_fully_ok(e, fid),
{
    lemma_ring_facts(m, e, fid);
    let l = m.face_loop(fid);
    let n = l.len() as int;
    assert(e.faces@[fid] == m.faces@[fid]);
    assert forall|j: int| 0 <= j < n implies #[trigger] e.loop_entry_ok(fid, j)
        && e.oriented_edges@[e.face_loop(fid)[j].0 as int].face.0 == fid && e.loop_step_ok(fid, j) by {
        let j2 = next_index(j, n);
        lemma_next_index(j, n);
        assert(e.oriented_edges@[l[j].0 as int] == lifted_oe(m, fid, j));
        assert(e.oriented_edges@[l[j2].0 as int] == lifted_oe(m, fid, j2));
        assert(e.edges@[m.ne() + j] == top_edge(m, fid, j));
        assert(e.edges@[m.ne() + j2] == top_edge(m, fid, j2));
    }
    assert forall|j1: int, j2: int| 0 <= j1 < n && 0 <= j2 < n && j1 != j2 implies (
    #[trigger] e.face_loop(fid)[j1]).0 != (#[trigger] e.face_loop(fid)[j2]).0 by {
        assert(m.face_loop(fid)[j1].0 != m.face_loop(fid)[j2].0);
    }
}

proof fn lemma_ext_skirt_face<P, N>(m: Mesh<P, N>, e: Mesh<P, N>, fid: int, i: int)
    requires
        extrusion_ctx(m, e, fid),
        0 <= i < m.face_loop(fid).len(),
    ensures
        face_fully_ok(e, m.nf() + i),
{
    lemma_ring_facts(m, e, fid);
    let l = m.face_loop(fid);
    let n = l.len() as int;
    let f = m.nf() + i;
    let sl = e.face_loop(f);
    let no = m.noe();
    let nx = next_index(i, n);
    assert(e.oriented_edges@[m.noe() + 4 * i + 0] == skirt_oe(m, fid, i, 0));
    assert(e.oriented_edges@[m.noe() + 4 * i + 1] == skirt_oe(m, fid, i, 1));
    assert(e.oriented_edges@[m.noe() + 4 * i + 2] == skirt_oe(m, fid, i, 2));
    assert(e.oriented_edges@[m.noe() + 4 * i + 3] == skirt_oe(m, fid, i, 3));
    assert(e.edges@[m.ne() + i] == top_edge(m, fid, i));
    assert(e.edges@[m.ne() + n + i] == skirt_edge(m, fid, i));
    assert(e.edges@[m.ne() + n + nx] == skirt_edge(m, fid, nx));
    assert(e.edges@[m.oriented_edges@[l[i].0 as int].edge.0 as int] == bottom_edge(m, fid, i));
    // start and end vertices of the four oriented edges
    assert(e.start_vertex(no + 4 * i) == VertexId((m.nv() + nx) as u32));
    assert(e.end_vertex(no + 4 * i) == VertexId((m.nv() + i) as u32));
    assert(e.start_vertex(no + 4 * i + 1) == VertexId((m.nv() + i) as u32));
    assert(e.end_vertex(no + 4 * i + 1) == m.start_vertex(l[i].0 as int));
    assert(e.start_vertex(no + 4 * i + 2) == m.start_vertex(l[i].0 as int));
    assert(e.end_vertex(no + 4 * i + 2) == m.end_vertex(l[i].0 as int));
    assert(e.start_vertex(no + 4 * i + 3) == m.start_vertex(l[nx].0 as int));
    assert(e.end_vertex(no + 4 * i + 3) == VertexId((m.nv() + nx) as u32));
    assert forall|j: int| 0 <= j < 4 implies #[trigger] e.loop_entry_ok(f, j)
        && e.oriented_edges@[e.face_loop(f)[j].0 as int].face.0 == f && e.loop_step_ok(f, j) by {
        lemma_next_index(j, 4);
        assert(sl[j].0 == no + 4 * i + j);
    }
}

/// The faces of an extrusion are valid.
pub proof fn lemma_extrusion_faces<P, N>(m: Mesh<P, N>, e: Mesh<P, N>, fid: int)
    requires
        extrusion_ctx(m, e, fid),
    ensures
        forall|f: int| 0 <= f < e.nf() ==> #[trigger] face_fully_ok(e, f),
{
    assert forall|f: int| 0 <= f < e.nf() implies #[trigger] face_fully_ok(e, f) by {
        if f == fid {
            lemma_ext_lifted_face(m, e, fid);
        } else if f < m.nf() {
            lemma_ext_old_face(m, e, fid, f);
        } else {
            lemma_ext_skirt_face(m, e, fid, f - m.nf());
        }
    }
}

/// An extrusion of a valid mesh is valid, with its oriented edges in their
/// own slots.
pub proof fn lemma_extrusion_valid<P, N>(m: Mesh<P, N>, e: Mesh<P, N>, fid: int)
    requires
        extrusion_ctx(m, e, fid),
    ensures
        valid_live(e, Set::empty(), Set::empty(), Set::empty()),
{
    lemma_extrusion_edges(m, e, fid);
    lemma_extrusion_oes(m, e, fid);
    lemma_extrusion_faces(m, e, fid);
    let d = Set::<int>::empty();
    assert forall|i: int, s: int| live_edge(e, d, i) && 0 <= s < 2 implies #[trigger] e.edge_vertex_ok(
        i,
        s,
    ) by {
        assert(edge_fully_ok(e, i));
    }
    assert forall|i: int, s: int| live_edge(e, d, i) && 0 <= s < 2 implies #[trigger] e.edge_slot_ok(
        i,
        s,
    ) && !d.contains(e.edges@[i].oriented_edges[s].0 as int) by {
        assert(edge_fully_ok(e, i));
    }
    assert forall|k: int| live_oe(e, d, k) implies #[trigger] e.oe_edge_ok(k) && !d.contains(
        e.oriented_edges@[k].edge.0 as int,
    ) && e.oe_in_own_slot(k) by {
        assert(oe_fully_ok(e, k));
    }
    assert forall|k: int| live_oe(e, d, k) implies #[trigger] e.oe_face_ok(k) && !d.contains(
        e.oriented_edges@[k].face.0 as int,
    ) by {
        assert(oe_fully_ok(e, k));
    }
    assert forall|f: int, j: int| live_face(e, d, f) && 0 <= j < e.face_loop(f).len() implies #[trigger] e.loop_entry_ok(
        f,
        j,
    ) && !d.contains(e.face_loop(f)[j].0 as int) && e.oriented_edges@[e.face_loop(
        f,
    )[j].0 as int].face.0 == f by {
        assert(face_fully_ok(e, f));
    }
    assert forall|f: int, j1: int, j2: int|
        live_face(e, d, f) && 0 <= j1 < e.face_loop(f).len() && 0 <= j2 < e.face_loop(f).len() && j1
            != j2 implies (#[trigger] e.face_loop(f)[j1]).0 != (#[trigger] e.face_loop(f)[j2]).0 by {
        assert(face_fully_ok(e, f));
    }
    assert forall|f: int, j: int| live_face(e, d, f) && 0 <= j < e.face_loop(f).len() implies #[trigger] e.loop_step_ok(
        f,
        j,
    ) by {
        assert(face_fully_ok(e, f));
        assert(e.loop_entry_ok(f, j));
    }
    assert forall|i: int| live_edge(e, d, i) implies #[trigger] e.edge_manifold_ok(i) by {
        assert(edge_fully_ok(e, i));
    }
    assert forall|f: int| live_face(e, d, f) implies #[trigger] e.face_loop(f).len() >= 3 by {
        assert(face_fully_ok(e, f));
    }
}


/// Position `k` of the loop that starts just after position `pos` of a loop
/// of length `len` and leaves `pos` out.
pub open spec fn after(pos: int, k: int, len: int) -> int {
    if pos + 1 + k < len {
        pos + 1 + k
    } else {
        pos + 1 + k - len
    }
}

/// The loop of a face `f` merged with a face `g` across an edge whose
/// oriented edges sit at position `pf` of `lf` and `pg` of `lg`: the rest of
/// `lf` from just after `pf`, followed by the rest of `lg` from just after `pg`.
pub open spec fn merged_loop(
    lf: Seq<OrientedEdgeId>,
    pf: int,
    lg: Seq<OrientedEdgeId>,
    pg: int,
) -> Seq<OrientedEdgeId> {
    Seq::new((lf.len() - 1) as nat, |k: int| lf[after(pf, k, lf.len() as int)]) + Seq::new(
        (lg.len() - 1) as nat,
        |k: int| lg[after(pg, k, lg.len() as int)],
    )
}

/// The conditions under which face `skirt` can be merged into face `ofid`
/// across edge `c` without breaking the live validity.
pub open spec fn mergeable<P, N>(
    m: Mesh<P, N>,
    dro: Set<int>,
    dre: Set<int>,
    drf: Set<int>,
    ofid: int,
    skirt: int,
    c: int,
) -> bool {
    let s0 = m.edges@[c].oriented_edges[0].0 as int;
    let s1 = m.edges@[c].oriented_edges[1].0 as int;
    &&& valid_live(m, dro, dre, drf)
    &&& live_edge(m, dre, c)
    &&& ((m.oriented_edges@[s0].face.0 == ofid && m.oriented_edges@[s1].face.0 == skirt) || (
    m.oriented_edges@[s0].face.0 == skirt && m.oriented_edges@[s1].face.0 == ofid))
    &&& forall|j: int|
        0 <= j < m.face_loop(skirt).len() && (#[trigger] m.face_loop(skirt)[j]).0 != s0
            && m.face_loop(skirt)[j].0 != s1 ==> m.oriented_edges@[m.twin(
            m.face_loop(skirt)[j].0 as int,
        ).0 as int].face.0 != ofid
}


/// Whether oriented edge `k` is an entry of the loop of face `g` other than
/// the one at position `pg`.
pub open spec fn moved_entry<P, N>(m: Mesh<P, N>, g: int, pg: int, k: int) -> bool {
    exists|j: int| 0 <= j < m.face_loop(g).len() && j != pg && #[trigger] m.face_loop(g)[j].0 == k
}

/// `m2` is `m` with face `g` merged into face `f` across the oriented edges at
/// position `pf` of the loop of `f` and `pg` of the loop of `g`.
pub open spec fn is_merge<P, N>(m: Mesh<P, N>, m2: Mesh<P, N>, f: int, pf: int, g: int, pg: int) -> bool {
    &&& m2.vertices@ == m.vertices@
    &&& m2.edges@ == m.edges@
    &&& m2.noe() == m.noe()
    &&& m2.nf() == m.nf()
    &&& forall|k: int|
        0 <= k < m.noe() ==> (#[trigger] m2.oriented_edges@[k]).edge == m.oriented_edges@[k].edge
            && m2.oriented_edges@[k].forward == m.oriented_edges@[k].forward
            && m2.oriented_edges@[k].face == (if moved_entry(m, g, pg, k) {
            FaceId(f as u32)
        } else {
            m.oriented_edges@[k].face
        })
    &&& forall|h: int| 0 <= h < m.nf() && h != f ==> #[trigger] m2.faces@[h] == m.faces@[h]
    &&& m2.face_loop(f) == merged_loop(m.face_loop(f), pf, m.face_loop(g), pg)
}

pub proof fn lemma_after(pos: int, k: int, len: int)
    requires
        0 <= pos < len,
        0 <= k < len - 1,
    ensures
        0 <= after(pos, k, len) < len,
        after(pos, k, len) != pos,
        k + 1 < len - 1 ==> next_index(after(pos, k, len), len) == after(pos, k + 1, len),
        k + 1 == len - 1 ==> next_index(after(pos, k, len), len) == pos,
        k == 0 ==> after(pos, k, len) == next_index(pos, len),
{
}

pub proof fn lemma_after_injective(pos: int, k1: int, k2: int, len: int)
    requires
        0 <= pos < len,
        0 <= k1 < len - 1,
        0 <= k2 < len - 1,
        k1 != k2,
    ensures
        after(pos, k1, len) != after(pos, k2, len),
{
}

/// The facts about the two faces of a merge that the proofs below share.
pub open spec fn merge_ctx<P, N>(
    m: Mesh<P, N>,
    m2: Mesh<P, N>,
    dro: Set<int>,
    dre: Set<int>,
    drf: Set<int>,
    f: int,
    pf: int,
    g: int,
    pg: int,
    c: int,
) -> bool {
    &&& mergeable(m, dro, dre, drf, f, g, c)
    &&& is_merge(m, m2, f, pf, g, pg)
    &&& 0 <= pf < m.face_loop(f).len()
    &&& 0 <= pg < m.face_loop(g).len()
    &&& m.oriented_edges@[m.face_loop(f)[pf].0 as int].edge.0 == c
    &&& m.oriented_edges@[m.face_loop(g)[pg].0 as int].edge.0 == c
}

proof fn lemma_merge_basics<P, N>(
    m: Mesh<P, N>,
    m2: Mesh<P, N>,
    dro: Set<int>,
    dre: Set<int>,
    drf: Set<int>,
    f: int,
    pf: int,
    g: int,
    pg: int,
    c: int,
)
    requires
        merge_ctx(m, m2, dro, dre, drf, f, pf, g, pg, c),
    ensures
        ({
            let a = m.face_loop(f)[pf].0 as int;
            let b = m.face_loop(g)[pg].0 as int;
            let s0 = m.edges@[c].oriented_edges[0].0 as int;
            let s1 = m.edges@[c].oriented_edges[1].0 as int;
            &&& live_face(m, drf, f)
            &&& live_face(m, drf, g)
            &&& f != g
            &&& live_oe(m, dro, a)
            &&& live_oe(m, dro, b)
            &&& a != b
            &&& (a == s0 && b == s1) || (a == s1 && b == s0)
            &&& m.start_vertex(a) == m.end_vertex(b)
            &&& m.end_vertex(a) == m.start_vertex(b)
            &&& m.face_loop(f).len() >= 3
            &&& m.face_loop(g).len() >= 3
            &&& m.oriented_edges@[a].face.0 == f
            &&& m.oriented_edges@[b].face.0 == g
        }),
        forall|k: int|
            live_oe(m, dro, k) ==> (moved_entry(m, g, pg, k) <==> (
            #[trigger] m.oriented_edges@[k]).face.0 == g && k != m.face_loop(g)[pg].0),
        forall|k: int|
            live_oe(m, dro, k) && (#[trigger] m.oriented_edges@[k]).edge.0 == c ==> k
                == m.edges@[c].oriented_edges[0].0 || k == m.edges@[c].oriented_edges[1].0,
{
    let lf = m.face_loop(f);
    let lg = m.face_loop(g);
    let a = lf[pf].0 as int;
    let b = lg[pg].0 as int;
    let s0 = m.edges@[c].oriented_edges[0].0 as int;
    let s1 = m.edges@[c].oriented_edges[1].0 as int;
    assert(m.edge_slot_ok(c, 0));
    assert(m.edge_slot_ok(c, 1));
    assert(m.edge_manifold_ok(c));
    assert(live_oe(m, dro, s0));
    assert(live_oe(m, dro, s1));
    assert(m.oe_face_ok(s0));
    assert(m.oe_face_ok(s1));
    assert(live_face(m, drf, f));
    assert(live_face(m, drf, g));
    assert(m.loop_entry_ok(f, pf));
    assert(m.loop_entry_ok(g, pg));
    assert(live_oe(m, dro, a));
    assert(live_oe(m, dro, b));
    assert(m.oe_edge_ok(a));
    assert(m.oe_edge_ok(b));
    assert(m.oe_in_own_slot(a));
    assert(m.oe_in_own_slot(b));
    assert(m.face_loop(f).len() >= 3);
    assert(m.face_loop(g).len() >= 3);
    assert forall|k: int| live_oe(m, dro, k) implies (moved_entry(m, g, pg, k) <==> (
    #[trigger] m.oriented_edges@[k]).face.0 == g && k != m.face_loop(g)[pg].0) by {
        if moved_entry(m, g, pg, k) {
            let j = choose|j: int| 0 <= j < lg.len() && j != pg && #[trigger] lg[j].0 == k;
            assert(m.loop_entry_ok(g, j));
            assert(lg[j].0 != lg[pg].0);
        }
        if m.oriented_edges@[k].face.0 == g && k != b {
            assert(m.oe_face_ok(k));
            let j = choose|j: int| 0 <= j < lg.len() && lg[j] == OrientedEdgeId(k as u32);
            assert(lg[j].0 == k);
            assert(j != pg);
        }
    }
    assert forall|k: int| live_oe(m, dro, k) && (#[trigger] m.oriented_edges@[k]).edge.0 == c implies k
        == m.edges@[c].oriented_edges[0].0 || k == m.edges@[c].oriented_edges[1].0 by {
        assert(m.oe_edge_ok(k));
        assert(m.oe_in_own_slot(k));
    }
}


proof fn lemma_merge_vertices_kept<P, N>(
    m: Mesh<P, N>,
    m2: Mesh<P, N>,
    f: int,
    pf: int,
    g: int,
    pg: int,
)
    requires
        is_merge(m, m2, f, pf, g, pg),
    ensures
        forall|k: int|
            0 <= k < m.noe() ==> #[trigger] m2.start_vertex(k) == m.start_vertex(k)
                && m2.end_vertex(k) == m.end_vertex(k) && m2.edge_of(k) == m.edge_of(k),
{
    assert forall|k: int| 0 <= k < m.noe() implies #[trigger] m2.start_vertex(k) == m.start_vertex(k)
        && m2.end_vertex(k) == m.end_vertex(k) && m2.edge_of(k) == m.edge_of(k) by {
        assert(m2.oriented_edges@[k].edge == m.oriented_edges@[k].edge);
    }
}

proof fn lemma_merge_edges<P, N>(
    m: Mesh<P, N>,
    m2: Mesh<P, N>,
    dro: Set<int>,
    dre: Set<int>,
    drf: Set<int>,
    f: int,
    pf: int,
    g: int,
    pg: int,
    c: int,
)
    requires
        merge_ctx(m, m2, dro, dre, drf, f, pf, g, pg, c),
    ensures
        ({
            let s0 = m.edges@[c].oriented_edges[0].0 as int;
            let s1 = m.edges@[c].oriented_edges[1].0 as int;
            let dro2 = dro.insert(s0).insert(s1);
            let dre2 = dre.insert(c);
            &&& forall|i: int, s: int|
                live_edge(m2, dre2, i) && 0 <= s < 2 ==> #[trigger] m2.edge_vertex_ok(i, s)
            &&& forall|i: int, s: int|
                live_edge(m2, dre2, i) && 0 <= s < 2 ==> #[trigger] m2.edge_slot_ok(i, s)
                    && !dro2.contains(m2.edges@[i].oriented_edges[s].0 as int)
            &&& forall|i: int| live_edge(m2, dre2, i) ==> #[trigger] m2.edge_manifold_ok(i)
        }),
{
    lemma_merge_basics(m, m2, dro, dre, drf, f, pf, g, pg, c);
    let s0 = m.edges@[c].oriented_edges[0].0 as int;
    let s1 = m.edges@[c].oriented_edges[1].0 as int;
    let dro2 = dro.insert(s0).insert(s1);
    let dre2 = dre.insert(c);
    let lg = m.face_loop(g);
    assert forall|i: int, s: int| live_edge(m2, dre2, i) && 0 <= s < 2 implies #[trigger] m2.edge_vertex_ok(
        i,
        s,
    ) by {
        assert(live_edge(m, dre, i));
        assert(m.edge_vertex_ok(i, s));
    }
    assert forall|i: int, s: int| live_edge(m2, dre2, i) && 0 <= s < 2 implies #[trigger] m2.edge_slot_ok(
        i,
        s,
    ) && !dro2.contains(m2.edges@[i].oriented_edges[s].0 as int) by {
        assert(live_edge(m, dre, i));
        assert(m.edge_slot_ok(i, s));
        let o = m.edges@[i].oriented_edges[s].0 as int;
        assert(m2.oriented_edges@[o].edge == m.oriented_edges@[o].edge);
        if o == s0 || o == s1 {
            assert(m.edge_slot_ok(c, 0));
            assert(m.edge_slot_ok(c, 1));
        }
    }
    assert forall|i: int| live_edge(m2, dre2, i) implies #[trigger] m2.edge_manifold_ok(i) by {
        assert(live_edge(m, dre, i));
        assert(m.edge_manifold_ok(i));
        assert(m.edge_slot_ok(i, 0));
        assert(m.edge_slot_ok(i, 1));
        let o0 = m.edges@[i].oriented_edges[0].0 as int;
        let o1 = m.edges@[i].oriented_edges[1].0 as int;
        assert(live_oe(m, dro, o0));
        assert(live_oe(m, dro, o1));
        assert(m.oe_face_ok(o0));
        assert(m.oe_face_ok(o1));
        assert(m2.oriented_edges@[o0].face == (if moved_entry(m, g, pg, o0) {
            FaceId(f as u32)
        } else {
            m.oriented_edges@[o0].face
        }));
        assert(m2.oriented_edges@[o1].face == (if moved_entry(m, g, pg, o1) {
            FaceId(f as u32)
        } else {
            m.oriented_edges@[o1].face
        }));
        assert(m.oe_edge_ok(o0));
        assert(m.oe_edge_ok(o1));
        if moved_entry(m, g, pg, o0) {
            let j = choose|j: int| 0 <= j < lg.len() && j != pg && #[trigger] lg[j].0 == o0;
            assert(m.oriented_edges@[o1].face.0 != g);
            assert(!moved_entry(m, g, pg, o1));
            assert(m.twin(o0) == m.edges@[i].oriented_edges[1]);
            assert(lg[j].0 != s0 && lg[j].0 != s1);
        }
        if moved_entry(m, g, pg, o1) {
            let j = choose|j: int| 0 <= j < lg.len() && j != pg && #[trigger] lg[j].0 == o1;
            assert(m.oriented_edges@[o0].face.0 != g);
            assert(!moved_entry(m, g, pg, o0));
            assert(m.twin(o1) == m.edges@[i].oriented_edges[0]);
            assert(lg[j].0 != s0 && lg[j].0 != s1);
        }
    }
}


pub proof fn lemma_after_inverse(pos: int, j: int, len: int) -> (kk: int)
    requires
        0 <= pos < len,
        0 <= j < len,
        j != pos,
    ensures
        0 <= kk < len - 1,
        after(pos, kk, len) == j,
{
    if j > pos {
        j - pos - 1
    } else {
        j + len - pos - 1
    }
}

proof fn lemma_merge_oes<P, N>(
    m: Mesh<P, N>,
    m2: Mesh<P, N>,
    dro: Set<int>,
    dre: Set<int>,
    drf: Set<int>,
    f: int,
    pf: int,
    g: int,
    pg: int,
    c: int,
)
    requires
        merge_ctx(m, m2, dro, dre, drf, f, pf, g, pg, c),
    ensures
        ({
            let s0 = m.edges@[c].oriented_edges[0].0 as int;
            let s1 = m.edges@[c].oriented_edges[1].0 as int;
            let dro2 = dro.insert(s0).insert(s1);
            let dre2 = dre.insert(c);
            let drf2 = drf.insert(g);
            &&& forall|k: int|
                live_oe(m2, dro2, k) ==> #[trigger] m2.oe_edge_ok(k) && !dre2.contains(
                    m2.oriented_edges@[k].edge.0 as int,
                ) && m2.oe_in_own_slot(k)
            &&& forall|k: int|
                live_oe(m2, dro2, k) ==> #[trigger] m2.oe_face_ok(k) && !drf2.contains(
                    m2.oriented_edges@[k].face.0 as int,
                )
        }),
{
    lemma_merge_basics(m, m2, dro, dre, drf, f, pf, g, pg, c);
    let s0 = m.edges@[c].oriented_edges[0].0 as int;
    let s1 = m.edges@[c].oriented_edges[1].0 as int;
    let dro2 = dro.insert(s0).insert(s1);
    let dre2 = dre.insert(c);
    let drf2 = drf.insert(g);
    let lf = m.face_loop(f);
    let lg = m.face_loop(g);
    let nl = m2.face_loop(f);
    assert forall|k: int| live_oe(m2, dro2, k) implies #[trigger] m2.oe_edge_ok(k) && !dre2.contains(
        m2.oriented_edges@[k].edge.0 as int,
    ) && m2.oe_in_own_slot(k) by {
        assert(live_oe(m, dro, k));
        assert(m.oe_edge_ok(k));
        assert(m.oe_in_own_slot(k));
        assert(m2.oriented_edges@[k].edge == m.oriented_edges@[k].edge);
        assert(m.oriented_edges@[k] == m.oriented_edges@[k]);
    }
    assert forall|k: int| live_oe(m2, dro2, k) implies #[trigger] m2.oe_face_ok(k) && !drf2.contains(
        m2.oriented_edges@[k].face.0 as int,
    ) by {
        assert(live_oe(m, dro, k));
        assert(m.oe_face_ok(k));
        assert(m.oriented_edges@[k] == m.oriented_edges@[k]);
        let h = m.oriented_edges@[k].face.0 as int;
        if moved_entry(m, g, pg, k) {
            let j = choose|j: int| 0 <= j < lg.len() && j != pg && #[trigger] lg[j].0 == k;
            let kk = lemma_after_inverse(pg, j, lg.len() as int);
            assert(nl[lf.len() - 1 + kk] == lg[j]);
            assert(lg[j] == OrientedEdgeId(k as u32));
        } else if h == f {
            let j = choose|j: int| 0 <= j < lf.len() && lf[j] == OrientedEdgeId(k as u32);
            assert(j != pf);
            let kk = lemma_after_inverse(pf, j, lf.len() as int);
            assert(nl[kk] == lf[j]);
        } else {
            assert(h != g);
            assert(m2.faces@[h] == m.faces@[h]);
        }
    }
}

proof fn lemma_merge_other_faces<P, N>(
    m: Mesh<P, N>,
    m2: Mesh<P, N>,
    dro: Set<int>,
    dre: Set<int>,
    drf: Set<int>,
    f: int,
    pf: int,
    g: int,
    pg: int,
    c: int,
    h: int,
)
    requires
        merge_ctx(m, m2, dro, dre, drf, f, pf, g, pg, c),
        live_face(m2, drf.insert(g), h),
        h != f,
    ensures
        face_fully_ok(m2, h),
        forall|j: int|
            0 <= j < m2.face_loop(h).len() ==> !dro.insert(
                m.edges@[c].oriented_edges[0].0 as int,
            ).insert(m.edges@[c].oriented_edges[1].0 as int).contains(
                #[trigger] m2.face_loop(h)[j].0 as int,
            ),
{
    lemma_merge_basics(m, m2, dro, dre, drf, f, pf, g, pg, c);
    lemma_merge_vertices_kept(m, m2, f, pf, g, pg);
    let s0 = m.edges@[c].oriented_edges[0].0 as int;
    let s1 = m.edges@[c].oriented_edges[1].0 as int;
    assert(live_face(m, drf, h));
    assert(m2.faces@[h] == m.faces@[h]);
    let lh = m.face_loop(h);
    assert forall|j: int| 0 <= j < lh.len() implies #[trigger] m2.loop_entry_ok(h, j)
        && m2.oriented_edges@[m2.face_loop(h)[j].0 as int].face.0 == h && m2.loop_step_ok(h, j)
        && !dro.insert(s0).insert(s1).contains(m2.face_loop(h)[j].0 as int) by {
        assert(m.loop_entry_ok(h, j));
        assert(m.loop_step_ok(h, j));
        let k = lh[j].0 as int;
        assert(live_oe(m, dro, k));
        assert(m.oriented_edges@[k] == m.oriented_edges@[k]);
        assert(m2.oriented_edges@[k].face == m.oriented_edges@[k].face);
        let j2 = (j + 1) % (lh.len() as int);
        assert(m.loop_entry_ok(h, j2));
        assert(m2.start_vertex(lh[j2].0 as int) == m.start_vertex(lh[j2].0 as int));
        assert(m2.end_vertex(k) == m.end_vertex(k));
    }
    assert forall|j1: int, j2: int|
        0 <= j1 < lh.len() && 0 <= j2 < lh.len() && j1 != j2 implies (
        #[trigger] m2.face_loop(h)[j1]).0 != (#[trigger] m2.face_loop(h)[j2]).0 by {
        assert(m.face_loop(h)[j1].0 != m.face_loop(h)[j2].0);
    }
    assert(m.face_loop(h).len() >= 3);
    assert forall|j: int| 0 <= j < m2.face_loop(h).len() implies !dro.insert(s0).insert(s1).contains(
        #[trigger] m2.face_loop(h)[j].0 as int,
    ) by {
        assert(m2.loop_entry_ok(h, j));
    }
}


proof fn lemma_merge_merged_face<P, N>(
    m: Mesh<P, N>,
    m2: Mesh<P, N>,
    dro: Set<int>,
    dre: Set<int>,
    drf: Set<int>,
    f: int,
    pf: int,
    g: int,
    pg: int,
    c: int,
)
    requires
        merge_ctx(m, m2, dro, dre, drf, f, pf, g, pg, c),
    ensures
        face_fully_ok(m2, f),
        forall|j: int|
            0 <= j < m2.face_loop(f).len() ==> !dro.insert(
                m.edges@[c].oriented_edges[0].0 as int,
            ).insert(m.edges@[c].oriented_edges[1].0 as int).contains(
                #[trigger] m2.face_loop(f)[j].0 as int,
            ),
{
    lemma_merge_basics(m, m2, dro, dre, drf, f, pf, g, pg, c);
    lemma_merge_vertices_kept(m, m2, f, pf, g, pg);
    let s0 = m.edges@[c].oriented_edges[0].0 as int;
    let s1 = m.edges@[c].oriented_edges[1].0 as int;
    let dro2 = dro.insert(s0).insert(s1);
    let lf = m.face_loop(f);
    let lg = m.face_loop(g);
    let nl = m2.face_loop(f);
    let ll = lf.len() as int;
    let lgl = lg.len() as int;
    let a = lf[pf].0 as int;
    let b = lg[pg].0 as int;
    assert(nl.len() == ll - 1 + lgl - 1);
    // what each entry is, and that it is live with face f afterwards
    assert forall|j: int| 0 <= j < nl.len() implies #[trigger] nl[j] == (if j < ll - 1 {
        lf[after(pf, j, ll)]
    } else {
        lg[after(pg, j - (ll - 1), lgl)]
    }) && nl[j].0 < m.noe() && live_oe(m, dro, nl[j].0 as int) && !dro2.contains(nl[j].0 as int)
        && m2.oriented_edges@[nl[j].0 as int].face.0 == f && (if j < ll - 1 {
        m.oriented_edges@[nl[j].0 as int].face.0 == f
    } else {
        m.oriented_edges@[nl[j].0 as int].face.0 == g
    }) by {
        if j < ll - 1 {
            let w = after(pf, j, ll);
            lemma_after(pf, j, ll);
            assert(m.loop_entry_ok(f, w));
            assert(lf[w].0 != lf[pf].0);
            let k = lf[w].0 as int;
            assert(m.oriented_edges@[k] == m.oriented_edges@[k]);
            assert(live_oe(m, dro, k));
            assert(!moved_entry(m, g, pg, k));
        } else {
            let kk = j - (ll - 1);
            let w = after(pg, kk, lgl);
            lemma_after(pg, kk, lgl);
            assert(m.loop_entry_ok(g, w));
            assert(lg[w].0 != lg[pg].0);
            let k = lg[w].0 as int;
            assert(m.oriented_edges@[k] == m.oriented_edges@[k]);
            assert(live_oe(m, dro, k));
            assert(moved_entry(m, g, pg, k));
        }
    }
    assert forall|j: int| 0 <= j < nl.len() implies #[trigger] m2.loop_entry_ok(f, j)
        && m2.oriented_edges@[m2.face_loop(f)[j].0 as int].face.0 == f && m2.loop_step_ok(f, j) by {
        let j2 = (j + 1) % (nl.len() as int);
        lemma_next_index(j, nl.len() as int);
        let x = nl[j].0 as int;
        let y = nl[j2].0 as int;
        assert(nl[j] == nl[j]);
        assert(nl[j2] == nl[j2]);
        assert(m2.end_vertex(x) == m.end_vertex(x));
        assert(m2.start_vertex(y) == m.start_vertex(y));
        if j < ll - 1 {
            let w = after(pf, j, ll);
            lemma_after(pf, j, ll);
            assert(m.loop_step_ok(f, w));
            lemma_next_index(w, ll);
            assert(m.loop_entry_ok(f, next_index(w, ll)));
            if j < ll - 2 {
                assert(nl[j + 1] == lf[after(pf, j + 1, ll)]);
            } else {
                lemma_after(pg, 0, lgl);
                assert(nl[j + 1] == lg[after(pg, 0, lgl)]);
                assert(m.loop_step_ok(g, pg));
                lemma_next_index(pg, lgl);
            }
        } else {
            let kk = j - (ll - 1);
            let w = after(pg, kk, lgl);
            lemma_after(pg, kk, lgl);
            assert(m.loop_step_ok(g, w));
            lemma_next_index(w, lgl);
            assert(m.loop_entry_ok(g, next_index(w, lgl)));
            if kk < lgl - 2 {
                assert(nl[j + 1] == lg[after(pg, kk + 1, lgl)]);
            } else {
                lemma_after(pf, 0, ll);
                assert(nl[0] == lf[after(pf, 0, ll)]);
                assert(m.loop_step_ok(f, pf));
                lemma_next_index(pf, ll);
            }
        }
    }
    assert forall|j1: int, j2: int|
        0 <= j1 < nl.len() && 0 <= j2 < nl.len() && j1 != j2 implies (#[trigger] nl[j1]).0 != (
        #[trigger] nl[j2]).0 by {
        assert(nl[j1] == nl[j1]);
        assert(nl[j2] == nl[j2]);
        if j1 < ll - 1 && j2 < ll - 1 {
            lemma_after_injective(pf, j1, j2, ll);
            assert(lf[after(pf, j1, ll)].0 != lf[after(pf, j2, ll)].0);
        } else if j1 >= ll - 1 && j2 >= ll - 1 {
            lemma_after_injective(pg, j1 - (ll - 1), j2 - (ll - 1), lgl);
            assert(lg[after(pg, j1 - (ll - 1), lgl)].0 != lg[after(pg, j2 - (ll - 1), lgl)].0);
        }
    }
    assert forall|j: int| 0 <= j < nl.len() implies !dro2.contains(#[trigger] nl[j].0 as int) by {
        assert(nl[j] == nl[j]);
    }
}

/// Merging a face into its neighbour across an edge keeps the live part valid;
/// the edge, its two oriented edges and the merged face become dead.
pub proof fn lemma_merge_valid<P, N>(
    m: Mesh<P, N>,
    m2: Mesh<P, N>,
    dro: Set<int>,
    dre: Set<int>,
    drf: Set<int>,
    f: int,
    pf: int,
    g: int,
    pg: int,
    c: int,
)
    requires
        merge_ctx(m, m2, dro, dre, drf, f, pf, g, pg, c),
    ensures
        valid_live(
            m2,
            dro.insert(m.edges@[c].oriented_edges[0].0 as int).insert(
                m.edges@[c].oriented_edges[1].0 as int,
            ),
            dre.insert(c),
            drf.insert(g),
        ),
{
    let s0 = m.edges@[c].oriented_edges[0].0 as int;
    let s1 = m.edges@[c].oriented_edges[1].0 as int;
    let dro2 = dro.insert(s0).insert(s1);
    let dre2 = dre.insert(c);
    let drf2 = drf.insert(g);
    lemma_merge_edges(m, m2, dro, dre, drf, f, pf, g, pg, c);
    lemma_merge_oes(m, m2, dro, dre, drf, f, pf, g, pg, c);
    lemma_merge_merged_face(m, m2, dro, dre, drf, f, pf, g, pg, c);
    assert forall|h: int| live_face(m2, drf2, h) implies face_fully_ok(m2, h) && forall|j: int|
        0 <= j < m2.face_loop(h).len() ==> !dro2.contains(#[trigger] m2.face_loop(h)[j].0 as int) by {
        if h != f {
            lemma_merge_other_faces(m, m2, dro, dre, drf, f, pf, g, pg, c, h);
        }
    }
    assert forall|f2: int, j: int| live_face(m2, drf2, f2) && 0 <= j < m2.face_loop(f2).len() implies #[trigger] m2.loop_entry_ok(
        f2,
        j,
    ) && !dro2.contains(m2.face_loop(f2)[j].0 as int) && m2.oriented_edges@[m2.face_loop(
        f2,
    )[j].0 as int].face.0 == f2 by {
        assert(face_fully_ok(m2, f2));
    }
    assert forall|f2: int, j1: int, j2: int|
        live_face(m2, drf2, f2) && 0 <= j1 < m2.face_loop(f2).len() && 0 <= j2 < m2.face_loop(
            f2,
        ).len() && j1 != j2 implies (#[trigger] m2.face_loop(f2)[j1]).0 != (
    #[trigger] m2.face_loop(f2)[j2]).0 by {
        assert(face_fully_ok(m2, f2));
    }
    assert forall|f2: int, j: int| live_face(m2, drf2, f2) && 0 <= j < m2.face_loop(f2).len() implies #[trigger] m2.loop_step_ok(
        f2,
        j,
    ) by {
        assert(face_fully_ok(m2, f2));
        assert(m2.loop_entry_ok(f2, j));
    }
    assert forall|f2: int| live_face(m2, drf2, f2) implies #[trigger] m2.face_loop(f2).len() >= 3 by {
        assert(face_fully_ok(m2, f2));
    }
    assert(m.nv() <= u32::MAX);
}


/// Merges face `skirtid` into face `ofid` across their common edge
/// `common_eid`: the loop of `ofid` loses the common edge's oriented edge and
/// continues with the rest of the loop of `skirtid`, whose oriented edges now
/// belong to `ofid`. Returns the two oriented edges of the common edge, which
/// are now dead together with the edge and `skirtid`.
#[verifier::rlimit(40)]
fn merge_face_into<P, N>(
    mesh: &mut Mesh<P, N>,
    ofid: FaceId,
    skirtid: FaceId,
    common_eid: EdgeId,
    Ghost(dro): Ghost<Set<int>>,
    Ghost(dre): Ghost<Set<int>>,
    Ghost(drf): Ghost<Set<int>>,
) -> (res: [OrientedEdgeId; 2])
    requires
        mergeable(*old(mesh), dro, dre, drf, ofid.0 as int, skirtid.0 as int, common_eid.0 as int),
    ensures
        res == old(mesh).edges@[common_eid.0 as int].oriented_edges,
        valid_live(
            *final(mesh),
            dro.insert(res[0].0 as int).insert(res[1].0 as int),
            dre.insert(common_eid.0 as int),
            drf.insert(skirtid.0 as int),
        ),
        final(mesh).vertices@ == old(mesh).vertices@,
        final(mesh).edges@ == old(mesh).edges@,
        final(mesh).noe() == old(mesh).noe(),
        final(mesh).nf() == old(mesh).nf(),
        forall|k: int|
            0 <= k < old(mesh).noe() ==> (#[trigger] final(mesh).oriented_edges@[k]).edge == old(
                mesh,
            ).oriented_edges@[k].edge && final(mesh).oriented_edges@[k].forward == old(
                mesh,
            ).oriented_edges@[k].forward && final(mesh).oriented_edges@[k].face == (if !dro.contains(
                k,
            ) && old(mesh).oriented_edges@[k].face == skirtid && k != res[0].0 && k != res[1].0 {
                ofid
            } else {
                old(mesh).oriented_edges@[k].face
            }),
        forall|h: int|
            0 <= h < old(mesh).nf() && h != ofid.0 ==> #[trigger] final(mesh).faces@[h] == old(
                mesh,
            ).faces@[h],
        final(mesh).faces@[ofid.0 as int].normal == old(mesh).faces@[ofid.0 as int].normal,
        loop_sides(*final(mesh), ofid.0 as int).insert(side(*old(mesh), res[0].0 as int)).insert(
            side(*old(mesh), res[1].0 as int),
        ) == loop_sides(*old(mesh), ofid.0 as int).add(loop_sides(*old(mesh), skirtid.0 as int)),
{
    let ghost m = *mesh;
    let ghost f = ofid.0 as int;
    let ghost g = skirtid.0 as int;
    let ghost c = common_eid.0 as int;
    // Find the common edge's oriented edge in the orthogonal face.
    let common_edge_oes = mesh.edges[common_eid.index()].oriented_edges;
    proof {
        assert(live_edge(m, dre, c));
        assert(m.edge_slot_ok(c, 0));
        assert(m.edge_slot_ok(c, 1));
    }
    let f0 = mesh.oriented_edges[common_edge_oes[0].index()].face;
    let f1 = mesh.oriented_edges[common_edge_oes[1].index()].face;
    // Find which oriented edge id belongs to the orthogonal and skirt faces.
    let face_and_skirt_oe = if f0 == ofid {
        assert(f1 == skirtid);
        (common_edge_oes[0], common_edge_oes[1])
    } else {
        assert(f0 == skirtid);
        assert(f1 == ofid);
        (common_edge_oes[1], common_edge_oes[0])
    };
    let ghost a = face_and_skirt_oe.0.0 as int;
    let ghost b = face_and_skirt_oe.1.0 as int;
    proof {
        assert(live_oe(m, dro, a));
        assert(live_oe(m, dro, b));
        assert(m.oe_face_ok(a));
        assert(m.oe_face_ok(b));
        assert(live_face(m, drf, f));
        assert(live_face(m, drf, g));
    }
    let lf_len = mesh.faces[ofid.index()].oriented_edges.len();
    let pos_in_ofid = position_of(&mesh.faces[ofid.index()].oriented_edges, face_and_skirt_oe.0);
    proof {
        let lf = m.face_loop(f);
        let t = choose|t: int| 0 <= t < lf.len() && lf[t] == OrientedEdgeId(a as u32);
        assert(lf[t] == face_and_skirt_oe.0);
    }
    let pos_in_ofid = pos_in_ofid.unwrap();
    let lg_len = mesh.faces[skirtid.index()].oriented_edges.len();
    let pos_in_skirt = position_of(&mesh.faces[skirtid.index()].oriented_edges, face_and_skirt_oe.1);
    proof {
        let lg = m.face_loop(g);
        let t = choose|t: int| 0 <= t < lg.len() && lg[t] == OrientedEdgeId(b as u32);
        assert(lg[t] == face_and_skirt_oe.1);
        assert(m.face_loop(f).len() >= 3);
        assert(m.face_loop(g).len() >= 3);
    }
    let pos_in_skirt = pos_in_skirt.unwrap();
    let ghost pf = pos_in_ofid as int;
    let ghost pg = pos_in_skirt as int;
    let ghost lf = m.face_loop(f);
    let ghost lg = m.face_loop(g);
    // The loop of the orthogonal face, rotated to start just after the common
    // edge and without it.
    let mut merged: Vec<OrientedEdgeId> = Vec::new();
    let mut i: usize = 1;
    while i < lf_len
        invariant
            lf_len == lf.len(),
            lf == mesh.faces@[f].oriented_edges@,
            0 <= f < mesh.faces@.len(),
            0 <= pf < lf.len(),
            pos_in_ofid == pf,
            1 <= i <= lf_len,
            ofid.0 == f,
            merged@ == Seq::new((i - 1) as nat, |k: int| lf[after(pf, k, lf.len() as int)]),
        decreases lf_len - i,
    {
        let p = if i < lf_len - pos_in_ofid {
            pos_in_ofid + i
        } else {
            i - (lf_len - pos_in_ofid)
        };
        merged.push(mesh.faces[ofid.index()].oriented_edges[p]);
        i = i + 1;
        assert(merged@ =~= Seq::new((i - 1) as nat, |k: int| lf[after(pf, k, lf.len() as int)]));
    }
    // Continue with the skirt's oriented edges, starting from just after the
    // common edge and stopping before it; they now belong to the orthogonal face.
    let ghost m1 = *mesh;
    let mut i: usize = 1;
    while i < lg_len
        invariant
            lg_len == lg.len(),
            lg == m.face_loop(g),
            lf == m.face_loop(f),
            mesh.faces@ == m.faces@,
            mesh.vertices@ == m.vertices@,
            mesh.edges@ == m.edges@,
            mesh.noe() == m.noe(),
            valid_live(m, dro, dre, drf),
            live_face(m, drf, g),
            0 <= pg < lg.len(),
            pos_in_skirt == pg,
            1 <= i <= lg_len,
            skirtid.0 == g,
            ofid.0 == f,
            merged@ == Seq::new((lf.len() - 1) as nat, |k: int| lf[after(pf, k, lf.len() as int)])
                + Seq::new((i - 1) as nat, |k: int| lg[after(pg, k, lg.len() as int)]),
            forall|k: int|
                0 <= k < m.noe() ==> (#[trigger] mesh.oriented_edges@[k]).edge
                    == m.oriented_edges@[k].edge && mesh.oriented_edges@[k].forward
                    == m.oriented_edges@[k].forward && mesh.oriented_edges@[k].face == (if exists|
                    t: int,
                |
                    0 <= t < i - 1 && #[trigger] lg[after(pg, t, lg.len() as int)].0 == k {
                    ofid
                } else {
                    m.oriented_edges@[k].face
                }),
        decreases lg_len - i,
    {
        let p = if i < lg_len - pos_in_skirt {
            pos_in_skirt + i
        } else {
            i - (lg_len - pos_in_skirt)
        };
        let oeid = mesh.faces[skirtid.index()].oriented_edges[p];
        proof {
            lemma_after(pg, (i - 1) as int, lg.len() as int);
            assert(p == after(pg, (i - 1) as int, lg.len() as int));
            assert(m.loop_entry_ok(g, p as int));
        }
        let ghost prev = *mesh;
        let mut oe = mesh.oriented_edges[oeid.index()];
        oe.face = ofid;
        mesh.oriented_edges.set(oeid.index(), oe);
        merged.push(oeid);
        proof {
            assert forall|k: int| 0 <= k < m.noe() implies (#[trigger] mesh.oriented_edges@[k]).edge
                == m.oriented_edges@[k].edge && mesh.oriented_edges@[k].forward
                == m.oriented_edges@[k].forward && mesh.oriented_edges@[k].face == (if exists|t: int|
                0 <= t < i && #[trigger] lg[after(pg, t, lg.len() as int)].0 == k {
                ofid
            } else {
                m.oriented_edges@[k].face
            }) by {
                assert(prev.oriented_edges@[k] == prev.oriented_edges@[k]);
                if k == oeid.0 {
                    assert(lg[after(pg, (i - 1) as int, lg.len() as int)].0 == k);
                } else {
                    if exists|t: int| 0 <= t < i && #[trigger] lg[after(pg, t, lg.len() as int)].0 == k {
                        let t = choose|t: int|
                            0 <= t < i && #[trigger] lg[after(pg, t, lg.len() as int)].0 == k;
                        assert(t != i - 1);
                    }
                }
            }
        }
        i = i + 1;
        assert(merged@ =~= Seq::new((lf.len() - 1) as nat, |k: int| lf[after(pf, k, lf.len() as int)])
            + Seq::new((i - 1) as nat, |k: int| lg[after(pg, k, lg.len() as int)]));
    }
    mesh.faces[ofid.index()].oriented_edges = merged;
    proof {
        let m2 = *mesh;
        assert(m2.face_loop(f) == merged_loop(lf, pf, lg, pg));
        assert forall|k: int| 0 <= k < m.noe() implies (#[trigger] m2.oriented_edges@[k]).face == (
        if moved_entry(m, g, pg, k) {
            FaceId(f as u32)
        } else {
            m.oriented_edges@[k].face
        }) by {
            if moved_entry(m, g, pg, k) {
                let j = choose|j: int| 0 <= j < lg.len() && j != pg && #[trigger] lg[j].0 == k;
                let t = lemma_after_inverse(pg, j, lg.len() as int);
                assert(lg[after(pg, t, lg.len() as int)].0 == k);
            } else {
                if exists|t: int|
                    0 <= t < lg.len() - 1 && #[trigger] lg[after(pg, t, lg.len() as int)].0 == k {
                    let t = choose|t: int|
                        0 <= t < lg.len() - 1 && #[trigger] lg[after(pg, t, lg.len() as int)].0 == k;
                    lemma_after(pg, t, lg.len() as int);
                    assert(lg[after(pg, t, lg.len() as int)].0 == k);
                }
            }
        }
        assert(is_merge(m, m2, f, pf, g, pg));
        let ml = merged_loop(lf, pf, lg, pg);
        assert forall|j: int| 0 <= j < ml.len() implies side(m2, #[trigger] ml[j].0 as int) == side(
            m,
            ml[j].0 as int,
        ) by {
            if j < lf.len() - 1 {
                lemma_after(pf, j, lf.len() as int);
                assert(m.loop_entry_ok(f, after(pf, j, lf.len() as int)));
            } else {
                lemma_after(pg, j - (lf.len() - 1), lg.len() as int);
                assert(m.loop_entry_ok(g, after(pg, j - (lf.len() - 1), lg.len() as int)));
            }
        }
        lemma_sides_same(m2, ml, m, ml);
        lemma_sides_merged(m, lf, pf, lg, pg);
        assert(loop_sides(m2, f).insert(side(m, common_edge_oes[0].0 as int)).insert(
            side(m, common_edge_oes[1].0 as int),
        ) =~= loop_sides(m, f).add(loop_sides(m, g)));
        lemma_merge_basics(m, m2, dro, dre, drf, f, pf, g, pg, c);
        lemma_merge_valid(m, m2, dro, dre, drf, f, pf, g, pg, c);
        assert forall|k: int| 0 <= k < m.noe() implies (#[trigger] m2.oriented_edges@[k]).face == (
        if !dro.contains(k) && m.oriented_edges@[k].face == skirtid && k
            != common_edge_oes[0].0 && k != common_edge_oes[1].0 {
            ofid
        } else {
            m.oriented_edges@[k].face
        }) by {
            if !dro.contains(k) {
                assert(live_oe(m, dro, k));
                assert(m.oriented_edges@[k] == m.oriented_edges@[k]);
            } else {
                if moved_entry(m, g, pg, k) {
                    let j = choose|j: int| 0 <= j < lg.len() && j != pg && #[trigger] lg[j].0 == k;
                    assert(m.loop_entry_ok(g, j));
                }
            }
        }
    }
    common_edge_oes
}


/// Whether the face ids of `s` are in ascending order.
pub open spec fn sorted_ids(s: Seq<FaceId>) -> bool {
    forall|i: int, j: int| 0 <= i < j < s.len() ==> s[i].0 <= s[j].0
}

/// Whether `x` is in the ascending sequence `s`, found by binary search.
pub fn contains_sorted(s: &Vec<FaceId>, x: FaceId) -> (res: bool)
    requires
        sorted_ids(s@),
    ensures
        res == s@.contains(x),
{
    let mut lo: usize = 0;
    let mut hi: usize = s.len();
    while lo < hi
        invariant
            sorted_ids(s@),
            0 <= lo <= hi <= s@.len(),
            forall|i: int| 0 <= i < lo ==> s@[i].0 < x.0,
            forall|i: int| hi <= i < s@.len() ==> s@[i].0 > x.0,
        decreases hi - lo,
    {
        let mid = lo + (hi - lo) / 2;
        if s[mid].0 < x.0 {
            lo = mid + 1;
        } else if s[mid].0 > x.0 {
            hi = mid;
        } else {
            assert(s@[mid as int] == x);
            return true;
        }
    }
    assert forall|i: int| 0 <= i < s@.len() implies s@[i] != x by {
        if i < lo {
            assert(s@[i].0 < x.0);
        } else {
            assert(s@[i].0 > x.0);
        }
    }
    false
}

/// Removes and returns the largest element of `v`, whose elements are distinct.
pub fn pop_max(v: &mut Vec<u32>) -> (res: u32)
    requires
        old(v)@.len() > 0,
        old(v)@.no_duplicates(),
    ensures
        old(v)@.contains(res),
        forall|i: int| 0 <= i < old(v)@.len() ==> old(v)@[i] <= res,
        final(v)@.no_duplicates(),
        final(v)@.len() == old(v)@.len() - 1,
        forall|x: u32| final(v)@.contains(x) <==> (old(v)@.contains(x) && x != res),
{
    let ghost s = v@;
    let mut best: usize = 0;
    let mut i: usize = 1;
    while i < v.len()
        invariant
            v@ == s,
            s.len() > 0,
            best < s.len(),
            1 <= i <= s.len(),
            forall|j: int| 0 <= j < i ==> s[j] <= s[best as int],
        decreases s.len() - i,
    {
        if v[i] > v[best] {
            best = i;
        }
        i = i + 1;
    }
    let res = v.swap_remove(best);
    proof {
        let t = v@;
        assert forall|x: u32| t.contains(x) implies s.contains(x) && x != res by {
            let j = choose|j: int| 0 <= j < t.len() && t[j] == x;
            if j == best {
                assert(s[s.len() - 1] == x);
                assert(s.len() - 1 != best);
            } else {
                assert(s[j] == x);
            }
        }
        assert forall|x: u32| s.contains(x) && x != res implies t.contains(x) by {
            let j = choose|j: int| 0 <= j < s.len() && s[j] == x;
            if j == s.len() - 1 {
                assert(t[best as int] == x);
            } else {
                assert(j != best);
                assert(t[j] == x);
            }
        }
        assert forall|a: int, b: int| 0 <= a < t.len() && 0 <= b < t.len() && a != b implies t[a]
            != t[b] by {
            let sa = if a == best {
                s.len() - 1
            } else {
                a
            };
            let sb = if b == best {
                s.len() - 1
            } else {
                b
            };
            assert(s[sa] == t[a]);
            assert(s[sb] == t[b]);
        }
    }
    res
}

/// Number of the faces `adj` that occur in `ortho`.
pub open spec fn num_merged(adj: Seq<FaceId>, ortho: Seq<FaceId>) -> nat
    decreases adj.len(),
{
    if adj.len() == 0 {
        0
    } else {
        num_merged(adj.drop_last(), ortho) + (if ortho.contains(adj.last()) {
            1nat
        } else {
            0nat
        })
    }
}

/// The faces across the edges of face `fid`, in loop order.
pub open spec fn adjacent_seq<P, N>(m: Mesh<P, N>, fid: int) -> Seq<FaceId> {
    Seq::new(
        m.face_loop(fid).len(),
        |j: int| m.oriented_edges@[m.twin(m.face_loop(fid)[j].0 as int).0 as int].face,
    )
}

/// In a valid mesh whose oriented edges sit in their edges' slots, no face
/// lies across one of its own edges, and adjacency is symmetric: every face
/// across an edge of `f` exists and has `f` across one of its edges.
pub proof fn lemma_adjacency<P, N>(m: Mesh<P, N>, f: int)
    requires
        m.is_valid(),
        m.oes_in_own_slots(),
        0 <= f < m.nf(),
    ensures
        !adjacent_seq(m, f).contains(FaceId(f as u32)),
        forall|j: int|
            0 <= j < adjacent_seq(m, f).len() ==> 0 <= (#[trigger] adjacent_seq(m, f)[j]).0 < m.nf()
                && adjacent_seq(m, adjacent_seq(m, f)[j].0 as int).contains(FaceId(f as u32)),
{
    lemma_valid_gives_partition(m);
    let adj = adjacent_seq(m, f);
    assert forall|j: int| 0 <= j < adj.len() implies 0 <= (#[trigger] adj[j]).0 < m.nf()
        && adjacent_seq(m, adj[j].0 as int).contains(FaceId(f as u32)) && adj[j] != FaceId(
        f as u32,
    ) by {
        let k = m.face_loop(f)[j].0 as int;
        assert(m.loop_entry_ok(f, j));
        assert(m.oriented_edges@[k].face.0 == f);
        assert(m.oe_edge_ok(k));
        assert(m.oe_in_own_slot(k));
        let e = m.oriented_edges@[k].edge.0 as int;
        let sk: int = if m.oriented_edges@[k].forward { 0 } else { 1 };
        let st: int = 1 - sk;
        assert(m.edge_slot_ok(e, 0));
        assert(m.edge_slot_ok(e, 1));
        assert(m.edge_manifold_ok(e));
        let t = m.twin(k).0 as int;
        assert(t == m.edges@[e].oriented_edges[st].0);
        assert(m.edges@[e].oriented_edges[sk].0 == k);
        assert(m.oe_face_ok(t));
        let g = m.oriented_edges@[t].face.0 as int;
        assert(adj[j] == m.oriented_edges@[t].face);
        let lg = m.face_loop(g);
        let j2 = choose|j2: int| 0 <= j2 < lg.len() && lg[j2] == OrientedEdgeId(t as u32);
        assert(m.twin(t).0 == k);
        assert(adjacent_seq(m, g)[j2] == FaceId(f as u32));
    }
}

/// No two consecutive edges of face `fid` border the same face of `ortho`:
/// merging the skirt into orthogonal faces then keeps the two sides of every
/// edge in different faces.
pub open spec fn merges_keep_manifold<P, N>(m: Mesh<P, N>, fid: int, ortho: Seq<FaceId>) -> bool {
    let adj = adjacent_seq(m, fid);
    forall|i: int|
        0 <= i < adj.len() && ortho.contains(#[trigger] adj[i]) && ortho.contains(
            adj[next_index(i, adj.len() as int)],
        ) ==> adj[i] != adj[next_index(i, adj.len() as int)]
}


/// The twin of ring entry `j` of face `fid`.
pub open spec fn ring_twin<P, N>(m: Mesh<P, N>, fid: int, j: int) -> int {
    m.twin(m.face_loop(fid)[j].0 as int).0 as int
}

/// Whether one of the first `t` merges was that of skirt face `j`.
pub open spec fn merged_before(mi: Seq<int>, t: int, j: int) -> bool {
    exists|u: int| 0 <= u < t && #[trigger] mi[u] == j
}

/// The state after the first `t` merges of the skirt faces `mi` (ring
/// indices, ascending) of the extrusion `e` of face `fid` of `m`.
pub open spec fn merge_state<P, N>(
    m: Mesh<P, N>,
    e: Mesh<P, N>,
    cur: Mesh<P, N>,
    fid: int,
    mi: Seq<int>,
    t: int,
    dro: Set<int>,
    dre: Set<int>,
    drf: Set<int>,
) -> bool {
    let n = m.face_loop(fid).len() as int;
    let no = m.noe();
    let nf = m.nf();
    let adj = adjacent_seq(m, fid);
    &&& extrusion_ctx(m, e, fid)
    &&& 0 <= t <= mi.len()
    &&& forall|u: int| 0 <= u < mi.len() ==> 0 <= #[trigger] mi[u] < n
    &&& forall|u: int, w: int| 0 <= u < w < mi.len() ==> mi[u] < mi[w]
    &&& valid_live(cur, dro, dre, drf)
    &&& cur.vertices@ == e.vertices@
    &&& cur.edges@ == e.edges@
    &&& cur.noe() == e.noe()
    &&& cur.nf() == e.nf()
    &&& forall|k: int| 0 <= k < no ==> #[trigger] cur.oriented_edges@[k] == e.oriented_edges@[k]
    &&& forall|j: int, r: int|
        0 <= j < n && 0 <= r < 4 ==> (#[trigger] cur.oriented_edges@[no + 4 * j + r]).edge
            == e.oriented_edges@[no + 4 * j + r].edge && cur.oriented_edges@[no + 4 * j + r].forward
            == e.oriented_edges@[no + 4 * j + r].forward && cur.oriented_edges@[no + 4 * j
            + r].face == (if r != 2 && merged_before(mi, t, j) {
            adj[j]
        } else {
            FaceId((nf + j) as u32)
        })
    &&& forall|h: int| nf <= h < e.nf() ==> #[trigger] cur.faces@[h] == e.faces@[h]
    &&& cur.faces@[fid] == e.faces@[fid]
    &&& forall|x: int|
        #[trigger] dro.contains(x) <==> exists|u: int|
            0 <= u < t && (x == no + 4 * mi[u] + 2 || x == ring_twin(m, fid, mi[u]))
    &&& forall|x: int|
        #[trigger] dre.contains(x) <==> exists|u: int|
            0 <= u < t && x == m.oriented_edges@[m.face_loop(fid)[mi[u]].0 as int].edge.0
    &&& forall|x: int| #[trigger] drf.contains(x) <==> exists|u: int| 0 <= u < t && x == nf + mi[u]
}


proof fn lemma_mergeable_at<P, N>(
    m: Mesh<P, N>,
    e: Mesh<P, N>,
    cur: Mesh<P, N>,
    fid: int,
    mi: Seq<int>,
    t: int,
    dro: Set<int>,
    dre: Set<int>,
    drf: Set<int>,
    ortho: Seq<FaceId>,
)
    requires
        merge_state(m, e, cur, fid, mi, t, dro, dre, drf),
        t < mi.len(),
        forall|u: int| 0 <= u < mi.len() ==> ortho.contains(adjacent_seq(m, fid)[#[trigger] mi[u]]),
        merges_keep_manifold(m, fid, ortho),
    ensures
        ({
            let j = mi[t];
            let c = m.oriented_edges@[m.face_loop(fid)[j].0 as int].edge.0 as int;
            &&& mergeable(cur, dro, dre, drf, adjacent_seq(m, fid)[j].0 as int, m.nf() + j, c)
            &&& cur.edges@[c].oriented_edges[0].0 == m.noe() + 4 * j + 2 || cur.edges@[c].oriented_edges[0].0
                == ring_twin(m, fid, j)
            &&& cur.edges@[c].oriented_edges[1].0 == m.noe() + 4 * j + 2 || cur.edges@[c].oriented_edges[1].0
                == ring_twin(m, fid, j)
            &&& cur.edges@[c].oriented_edges[0].0 != cur.edges@[c].oriented_edges[1].0
        }),
{
    lemma_ring_facts(m, e, fid);
    let l = m.face_loop(fid);
    let n = l.len() as int;
    let no = m.noe();
    let nf = m.nf();
    let ne = m.ne();
    let adj = adjacent_seq(m, fid);
    let j = mi[t];
    let k = l[j].0 as int;
    let c = m.oriented_edges@[k].edge.0 as int;
    let tw = ring_twin(m, fid, j);
    let f = adj[j].0 as int;
    let g = nf + j;
    // the common edge
    assert(e.edges@[m.oriented_edges@[l[j].0 as int].edge.0 as int] == bottom_edge(m, fid, j));
    assert(cur.edges@[c] == bottom_edge(m, fid, j));
    assert(!dre.contains(c)) by {
        if dre.contains(c) {
            let u = choose|u: int|
                0 <= u < t && c == m.oriented_edges@[m.face_loop(fid)[mi[u]].0 as int].edge.0;
            assert(mi[u] < mi[t]);
        }
    }
    assert(live_edge(cur, dre, c));
    assert(!in_ring(m, fid, tw));
    assert(m.oe_face_ok(tw));
    assert(cur.oriented_edges@[tw] == e.oriented_edges@[tw]);
    assert(e.oriented_edges@[tw] == m.oriented_edges@[tw]);
    assert(cur.oriented_edges@[no + 4 * j + 2].face == FaceId((nf + j) as u32));
    assert(adj[j] == m.oriented_edges@[tw].face);
    // the other entries of the skirt loop and their twins
    let sl = cur.face_loop(g);
    assert(cur.faces@[g] == e.faces@[g]);
    assert(sl =~= seq![
        OrientedEdgeId((no + 4 * j) as u32),
        OrientedEdgeId((no + 4 * j + 1) as u32),
        OrientedEdgeId((no + 4 * j + 2) as u32),
        OrientedEdgeId((no + 4 * j + 3) as u32),
    ]);
    let p = prev_index(j, n);
    let x = next_index(j, n);
    assert(e.oriented_edges@[no + 4 * j + 0] == skirt_oe(m, fid, j, 0));
    assert(e.oriented_edges@[no + 4 * j + 1] == skirt_oe(m, fid, j, 1));
    assert(e.oriented_edges@[no + 4 * j + 3] == skirt_oe(m, fid, j, 3));
    assert(cur.oriented_edges@[no + 4 * j + 0].edge == e.oriented_edges@[no + 4 * j + 0].edge);
    assert(cur.oriented_edges@[no + 4 * j + 1].edge == e.oriented_edges@[no + 4 * j + 1].edge);
    assert(cur.oriented_edges@[no + 4 * j + 3].edge == e.oriented_edges@[no + 4 * j + 3].edge);
    assert(e.edges@[ne + j] == top_edge(m, fid, j));
    assert(e.edges@[ne + n + j] == skirt_edge(m, fid, j));
    assert(e.edges@[ne + n + x] == skirt_edge(m, fid, x));
    assert(prev_index(x, n) == j);
    assert(next_index(p, n) == j);
    // twin of the top oriented edge: the ring entry, in face fid
    assert(cur.twin(no + 4 * j) == l[j]);
    assert(cur.oriented_edges@[k] == e.oriented_edges@[k]);
    assert(e.oriented_edges@[l[j].0 as int] == lifted_oe(m, fid, j));
    // twin of the down oriented edge: the up oriented edge of skirt face p
    assert(cur.twin(no + 4 * j + 1) == OrientedEdgeId((no + 4 * p + 3) as u32));
    assert(cur.oriented_edges@[no + 4 * p + 3].face == (if merged_before(mi, t, p) {
        adj[p]
    } else {
        FaceId((nf + p) as u32)
    }));
    if merged_before(mi, t, p) {
        let u = choose|u: int| 0 <= u < t && #[trigger] mi[u] == p;
        assert(ortho.contains(adj[mi[u]]));
        assert(ortho.contains(adj[mi[t]]));
        assert(adj[p] != adj[next_index(p, n)]);
    }
    // twin of the up oriented edge: the down oriented edge of skirt face x
    assert(cur.twin(no + 4 * j + 3) == OrientedEdgeId((no + 4 * x + 1) as u32));
    assert(cur.oriented_edges@[no + 4 * x + 1].face == (if merged_before(mi, t, x) {
        adj[x]
    } else {
        FaceId((nf + x) as u32)
    }));
    if merged_before(mi, t, x) {
        let u = choose|u: int| 0 <= u < t && #[trigger] mi[u] == x;
        assert(ortho.contains(adj[mi[u]]));
        assert(ortho.contains(adj[mi[t]]));
        assert(adj[j] != adj[next_index(j, n)]);
    }
    assert forall|q: int|
        0 <= q < sl.len() && (#[trigger] sl[q]).0 != cur.edges@[c].oriented_edges[0].0 && sl[q].0
            != cur.edges@[c].oriented_edges[1].0 implies cur.oriented_edges@[cur.twin(
        sl[q].0 as int,
    ).0 as int].face.0 != f by {
        assert(q != 2);
    }
}


proof fn lemma_merge_state_step<P, N>(
    m: Mesh<P, N>,
    e: Mesh<P, N>,
    cur: Mesh<P, N>,
    cur2: Mesh<P, N>,
    fid: int,
    mi: Seq<int>,
    t: int,
    dro: Set<int>,
    dre: Set<int>,
    drf: Set<int>,
    res: [OrientedEdgeId; 2],
)
    requires
        merge_state(m, e, cur, fid, mi, t, dro, dre, drf),
        t < mi.len(),
        ({
            let j = mi[t];
            let c = m.oriented_edges@[m.face_loop(fid)[j].0 as int].edge.0 as int;
            let ofid = adjacent_seq(m, fid)[j];
            let skirtid = FaceId((m.nf() + j) as u32);
            &&& res == cur.edges@[c].oriented_edges
            &&& (res[0].0 == m.noe() + 4 * j + 2 || res[0].0 == ring_twin(m, fid, j))
            &&& (res[1].0 == m.noe() + 4 * j + 2 || res[1].0 == ring_twin(m, fid, j))
            &&& res[0].0 != res[1].0
            &&& valid_live(
                cur2,
                dro.insert(res[0].0 as int).insert(res[1].0 as int),
                dre.insert(c),
                drf.insert(skirtid.0 as int),
            )
            &&& cur2.vertices@ == cur.vertices@
            &&& cur2.edges@ == cur.edges@
            &&& cur2.noe() == cur.noe()
            &&& cur2.nf() == cur.nf()
            &&& forall|k: int|
                0 <= k < cur.noe() ==> (#[trigger] cur2.oriented_edges@[k]).edge
                    == cur.oriented_edges@[k].edge && cur2.oriented_edges@[k].forward
                    == cur.oriented_edges@[k].forward && cur2.oriented_edges@[k].face == (
                if !dro.contains(k) && cur.oriented_edges@[k].face == skirtid && k != res[0].0 && k
                    != res[1].0 {
                    ofid
                } else {
                    cur.oriented_edges@[k].face
                })
            &&& forall|h: int|
                0 <= h < cur.nf() && h != ofid.0 ==> #[trigger] cur2.faces@[h] == cur.faces@[h]
        }),
    ensures
        merge_state(
            m,
            e,
            cur2,
            fid,
            mi,
            t + 1,
            dro.insert(res[0].0 as int).insert(res[1].0 as int),
            dre.insert(m.oriented_edges@[m.face_loop(fid)[mi[t]].0 as int].edge.0 as int),
            drf.insert(m.nf() + mi[t]),
        ),
{
    lemma_ring_facts(m, e, fid);
    let l = m.face_loop(fid);
    let n = l.len() as int;
    let no = m.noe();
    let nf = m.nf();
    let adj = adjacent_seq(m, fid);
    let j = mi[t];
    let c = m.oriented_edges@[l[j].0 as int].edge.0 as int;
    let dro2 = dro.insert(res[0].0 as int).insert(res[1].0 as int);
    let dre2 = dre.insert(c);
    let drf2 = drf.insert(nf + j);
    let skirtid = FaceId((nf + j) as u32);
    assert forall|k: int| 0 <= k < no implies #[trigger] cur2.oriented_edges@[k] == e.oriented_edges@[k] by {
        assert(cur.oriented_edges@[k] == e.oriented_edges@[k]);
        if in_ring(m, fid, k) {
            let i = choose|i: int| 0 <= i < n && #[trigger] l[i].0 == k;
            assert(e.oriented_edges@[l[i].0 as int] == lifted_oe(m, fid, i));
        } else {
            assert(e.oriented_edges@[k] == m.oriented_edges@[k]);
            assert(m.oe_face_ok(k));
        }
    }
    assert forall|jj: int, r: int| 0 <= jj < n && 0 <= r < 4 implies (#[trigger] cur2.oriented_edges@[no
        + 4 * jj + r]).edge == e.oriented_edges@[no + 4 * jj + r].edge && cur2.oriented_edges@[no + 4
        * jj + r].forward == e.oriented_edges@[no + 4 * jj + r].forward && cur2.oriented_edges@[no
        + 4 * jj + r].face == (if r != 2 && merged_before(mi, t + 1, jj) {
        adj[jj]
    } else {
        FaceId((nf + jj) as u32)
    }) by {
        let k = no + 4 * jj + r;
        assert(cur.oriented_edges@[k].face == (if r != 2 && merged_before(mi, t, jj) {
            adj[jj]
        } else {
            FaceId((nf + jj) as u32)
        }));
        if merged_before(mi, t + 1, jj) && !merged_before(mi, t, jj) {
            let u = choose|u: int| 0 <= u < t + 1 && #[trigger] mi[u] == jj;
            assert(u == t);
        }
        if merged_before(mi, t, jj) {
            let u = choose|u: int| 0 <= u < t && #[trigger] mi[u] == jj;
            assert(mi[u] < mi[t]);
            assert(merged_before(mi, t + 1, jj));
        }
        if jj == j {
            assert(merged_before(mi, t + 1, jj));
            if r != 2 {
                assert(!dro.contains(k)) by {
                    if dro.contains(k) {
                        let u = choose|u: int|
                            0 <= u < t && (k == no + 4 * mi[u] + 2 || k == ring_twin(m, fid, mi[u]));
                        assert(ring_twin(m, fid, mi[u]) < no);
                        assert(mi[u] < mi[t]);
                    }
                }
            }
        }
        assert(adj[jj].0 < nf) by {
            let tw = ring_twin(m, fid, jj);
            assert(m.oe_face_ok(tw));
        }
    }
    assert forall|h: int| nf <= h < e.nf() implies #[trigger] cur2.faces@[h] == e.faces@[h] by {
        assert(adj[j].0 < nf) by {
            assert(m.oe_face_ok(ring_twin(m, fid, j)));
        }
        assert(cur.faces@[h] == e.faces@[h]);
    }
    assert(cur2.faces@[fid] == e.faces@[fid]) by {
        assert(adj[j].0 != fid);
        assert(cur.faces@[fid] == e.faces@[fid]);
    }
    assert forall|x: int| #[trigger] dro2.contains(x) <==> exists|u: int|
        0 <= u < t + 1 && (x == no + 4 * mi[u] + 2 || x == ring_twin(m, fid, mi[u])) by {
        if dro2.contains(x) && !dro.contains(x) {
            assert(x == no + 4 * mi[t] + 2 || x == ring_twin(m, fid, mi[t]));
        }
        if exists|u: int| 0 <= u < t + 1 && (x == no + 4 * mi[u] + 2 || x == ring_twin(m, fid, mi[u])) {
            let u = choose|u: int|
                0 <= u < t + 1 && (x == no + 4 * mi[u] + 2 || x == ring_twin(m, fid, mi[u]));
            if u < t {
                assert(dro.contains(x));
            }
        }
    }
    assert forall|x: int| #[trigger] dre2.contains(x) <==> exists|u: int|
        0 <= u < t + 1 && x == m.oriented_edges@[m.face_loop(fid)[mi[u]].0 as int].edge.0 by {
        if exists|u: int| 0 <= u < t + 1 && x == m.oriented_edges@[m.face_loop(fid)[mi[u]].0 as int].edge.0 {
            let u = choose|u: int|
                0 <= u < t + 1 && x == m.oriented_edges@[m.face_loop(fid)[mi[u]].0 as int].edge.0;
            if u < t {
                assert(dre.contains(x));
            }
        }
    }
    assert forall|x: int| #[trigger] drf2.contains(x) <==> exists|u: int|
        0 <= u < t + 1 && x == nf + mi[u] by {
        if exists|u: int| 0 <= u < t + 1 && x == nf + mi[u] {
            let u = choose|u: int| 0 <= u < t + 1 && x == nf + mi[u];
            if u < t {
                assert(drf.contains(x));
            }
        }
    }
}


proof fn lemma_increasing_len(mi: Seq<int>, n: int)
    requires
        n >= 0,
        forall|u: int| 0 <= u < mi.len() ==> 0 <= #[trigger] mi[u] < n,
        forall|u: int, w: int| 0 <= u < w < mi.len() ==> mi[u] < mi[w],
    ensures
        mi.len() <= n,
    decreases mi.len(),
{
    if mi.len() > 0 {
        let s = mi.drop_last();
        assert forall|u: int| 0 <= u < s.len() implies 0 <= #[trigger] s[u] < n - 1 by {
            assert(s[u] == mi[u]);
            assert(mi[u] < mi[mi.len() - 1]);
        }
        assert forall|u: int, w: int| 0 <= u < w < s.len() implies s[u] < s[w] by {
            assert(s[u] == mi[u]);
            assert(s[w] == mi[w]);
        }
        assert(0 <= mi[mi.len() - 1] < n);
        lemma_increasing_len(s, n - 1);
        assert(mi.len() == s.len() + 1);
    }
}

/// Face `h` of `m` is neither face `fid` nor one of the faces across its
/// edges that `ortho` names, into which skirt faces are merged.
pub open spec fn untouched_face<P, N>(m: Mesh<P, N>, fid: int, ortho: Seq<FaceId>, h: int) -> bool {
    &&& 0 <= h < m.nf()
    &&& h != fid
    &&& !(ortho.contains(FaceId(h as u32)) && adjacent_seq(m, fid).contains(FaceId(h as u32)))
}

/// The untouched faces of `m` keep their loops and normals in `cur`, and the
/// oriented edges of those loops are as they were.
pub open spec fn keeps_untouched<P, N>(
    m: Mesh<P, N>,
    cur: Mesh<P, N>,
    fid: int,
    ortho: Seq<FaceId>,
) -> bool {
    &&& forall|h: int|
        #[trigger] untouched_face(m, fid, ortho, h) ==> cur.face_loop(h) == m.face_loop(h)
            && cur.faces@[h].normal == m.faces@[h].normal
    &&& forall|h: int, j: int|
        untouched_face(m, fid, ortho, h) && 0 <= j < m.face_loop(h).len()
            ==> cur.oriented_edges@[(#[trigger] m.face_loop(h)[j]).0 as int]
            == m.oriented_edges@[m.face_loop(h)[j].0 as int]
}

/// An entry of the loop of an untouched face is an oriented edge of that
/// face on an edge in range, outside the loop of `fid`, and not the twin of a
/// loop entry of `fid` across from a face of `ortho`.
proof fn lemma_untouched_entry<P, N>(m: Mesh<P, N>, fid: int, ortho: Seq<FaceId>, h: int, j: int)
    requires
        m.is_valid(),
        m.loops_partition(),
        0 <= fid < m.nf(),
        untouched_face(m, fid, ortho, h),
        0 <= j < m.face_loop(h).len(),
    ensures
        0 <= m.face_loop(h)[j].0 < m.noe(),
        m.oriented_edges@[m.face_loop(h)[j].0 as int].face.0 == h,
        m.oriented_edges@[m.face_loop(h)[j].0 as int].edge.0 < m.ne(),
        !in_ring(m, fid, m.face_loop(h)[j].0 as int),
        forall|i: int|
            0 <= i < m.face_loop(fid).len() && ortho.contains(#[trigger] adjacent_seq(m, fid)[i])
                ==> ring_twin(m, fid, i) != m.face_loop(h)[j].0,
{
    let k = m.face_loop(h)[j].0 as int;
    assert(m.loop_entry_ok(h, j));
    assert(m.oe_edge_ok(k));
    if in_ring(m, fid, k) {
        let i = choose|i: int| 0 <= i < m.face_loop(fid).len() && #[trigger] m.face_loop(fid)[i].0 == k;
        assert(m.oriented_edges@[m.face_loop(fid)[i].0 as int].face.0 == fid);
    }
    assert forall|i: int|
        0 <= i < m.face_loop(fid).len() && ortho.contains(#[trigger] adjacent_seq(m, fid)[i])
            implies ring_twin(m, fid, i) != k by {
        if ring_twin(m, fid, i) == k {
            let adj = adjacent_seq(m, fid);
            assert(adj[i] == m.oriented_edges@[k].face);
            assert(adj[i] == FaceId(h as u32));
            assert(adj.contains(FaceId(h as u32)));
        }
    }
}

/// The sides that a face takes in with skirt face `i` of the pull of face
/// `fid`: the lifted side from new vertex `i + 1` to new vertex `i`, the side
/// down from new vertex `i` to the start of ring entry `i`, and the side up
/// from the end of ring entry `i` to new vertex `i + 1`.
pub open spec fn skirt_gain<P, N>(m: Mesh<P, N>, fid: int, i: int) -> Multiset<(VertexId, VertexId)> {
    let n = m.face_loop(fid).len() as int;
    let k = m.face_loop(fid)[i].0 as int;
    let p0 = VertexId((m.nv() + i) as u32);
    let p1 = VertexId((m.nv() + next_index(i, n)) as u32);
    Multiset::empty().insert((p1, p0)).insert((p0, m.start_vertex(k))).insert((m.end_vertex(k), p1))
}

/// The side that a face gives up when it takes in skirt face `i`: that of
/// the twin of ring entry `i`, from its end back to its start.
pub open spec fn skirt_loss<P, N>(m: Mesh<P, N>, fid: int, i: int) -> Multiset<(VertexId, VertexId)> {
    let k = m.face_loop(fid)[i].0 as int;
    Multiset::singleton((m.end_vertex(k), m.start_vertex(k)))
}

/// The sides that face `h` takes in with the skirt faces of the ring entries
/// below `j` that `sel` picks and across which `h` lies.
pub open spec fn gains_into<P, N>(m: Mesh<P, N>, fid: int, sel: spec_fn(int) -> bool, h: int, j: int) -> Multiset<
    (VertexId, VertexId),
>
    decreases j,
{
    if j <= 0 {
        Multiset::empty()
    } else {
        gains_into(m, fid, sel, h, j - 1).add(
            if sel(j - 1) && adjacent_seq(m, fid)[j - 1] == FaceId(h as u32) {
                skirt_gain(m, fid, j - 1)
            } else {
                Multiset::empty()
            },
        )
    }
}

/// The sides that face `h` gives up for those skirt faces.
pub open spec fn losses_into<P, N>(m: Mesh<P, N>, fid: int, sel: spec_fn(int) -> bool, h: int, j: int) -> Multiset<
    (VertexId, VertexId),
>
    decreases j,
{
    if j <= 0 {
        Multiset::empty()
    } else {
        losses_into(m, fid, sel, h, j - 1).add(
            if sel(j - 1) && adjacent_seq(m, fid)[j - 1] == FaceId(h as u32) {
                skirt_loss(m, fid, j - 1)
            } else {
                Multiset::empty()
            },
        )
    }
}

/// All four sides of skirt face `i`: those it gives a face it merges into
/// and the side along ring entry `i`.
pub open spec fn skirt_sides<P, N>(m: Mesh<P, N>, fid: int, i: int) -> Multiset<(VertexId, VertexId)> {
    let k = m.face_loop(fid)[i].0 as int;
    skirt_gain(m, fid, i).insert((m.start_vertex(k), m.end_vertex(k)))
}

/// The sides of the skirt faces of the ring entries below `j` that `sel`
/// does not pick, taken together.
pub open spec fn unmerged_sides<P, N>(m: Mesh<P, N>, fid: int, sel: spec_fn(int) -> bool, j: int) -> Multiset<
    (VertexId, VertexId),
>
    decreases j,
{
    if j <= 0 {
        Multiset::empty()
    } else {
        unmerged_sides(m, fid, sel, j - 1).add(
            if sel(j - 1) {
                Multiset::empty()
            } else {
                skirt_sides(m, fid, j - 1)
            },
        )
    }
}

/// `s` are the four sides of the skirt face of a ring entry that `sel`
/// does not pick.
pub open spec fn unmerged_skirt<P, N>(m: Mesh<P, N>, fid: int, sel: spec_fn(int) -> bool, s: Multiset<
    (VertexId, VertexId),
>) -> bool {
    exists|i: int| 0 <= i < m.face_loop(fid).len() && !sel(i) && s == #[trigger] skirt_sides(m, fid, i)
}

/// The sides of face `h` of `m2`, or none when `h` is among `drf`.
pub open spec fn live_sides<P, N>(m2: Mesh<P, N>, drf: Set<int>) -> spec_fn(int) -> Multiset<(VertexId, VertexId)> {
    |h: int| if drf.contains(h) {
        Multiset::empty()
    } else {
        loop_sides(m2, h)
    }
}

/// The ring entries whose skirt face is merged: those across which lies a
/// face of `ortho`.
pub open spec fn merged_into<P, N>(m: Mesh<P, N>, fid: int, ortho: Seq<FaceId>) -> spec_fn(int) -> bool {
    |i: int| ortho.contains(adjacent_seq(m, fid)[i])
}

/// The ring entries of the first `t` merges.
pub open spec fn merged_upto(mi: Seq<int>, t: int) -> spec_fn(int) -> bool {
    |i: int| merged_before(mi, t, i)
}

proof fn lemma_into_same<P, N>(m: Mesh<P, N>, fid: int, s1: spec_fn(int) -> bool, s2: spec_fn(int) -> bool, h: int, j: int)
    requires
        forall|i: int| 0 <= i < j ==> #[trigger] s1(i) == s2(i),
    ensures
        gains_into(m, fid, s1, h, j) == gains_into(m, fid, s2, h, j),
        losses_into(m, fid, s1, h, j) == losses_into(m, fid, s2, h, j),
    decreases j,
{
    if j > 0 {
        lemma_into_same(m, fid, s1, s2, h, j - 1);
    }
}

proof fn lemma_into_none<P, N>(m: Mesh<P, N>, fid: int, s: spec_fn(int) -> bool, h: int, j: int)
    requires
        forall|i: int| 0 <= i < j ==> !#[trigger] s(i),
    ensures
        gains_into(m, fid, s, h, j) == Multiset::<(VertexId, VertexId)>::empty(),
        losses_into(m, fid, s, h, j) == Multiset::<(VertexId, VertexId)>::empty(),
    decreases j,
{
    if j > 0 {
        lemma_into_none(m, fid, s, h, j - 1);
        assert(gains_into(m, fid, s, h, j) =~= Multiset::empty());
        assert(losses_into(m, fid, s, h, j) =~= Multiset::empty());
    }
}

/// Picking one more ring entry `q` adds its gain and loss, when `h` lies
/// across it.
proof fn lemma_into_extend<P, N>(
    m: Mesh<P, N>,
    fid: int,
    s1: spec_fn(int) -> bool,
    s2: spec_fn(int) -> bool,
    q: int,
    h: int,
    j: int,
)
    requires
        0 <= q,
        !s1(q),
        forall|i: int| 0 <= i < j ==> #[trigger] s2(i) == (s1(i) || i == q),
    ensures
        gains_into(m, fid, s2, h, j) == gains_into(m, fid, s1, h, j).add(
            if q < j && adjacent_seq(m, fid)[q] == FaceId(h as u32) {
                skirt_gain(m, fid, q)
            } else {
                Multiset::empty()
            },
        ),
        losses_into(m, fid, s2, h, j) == losses_into(m, fid, s1, h, j).add(
            if q < j && adjacent_seq(m, fid)[q] == FaceId(h as u32) {
                skirt_loss(m, fid, q)
            } else {
                Multiset::empty()
            },
        ),
    decreases j,
{
    if j > 0 {
        lemma_into_extend(m, fid, s1, s2, q, h, j - 1);
        assert(gains_into(m, fid, s2, h, j) =~= gains_into(m, fid, s1, h, j).add(
            if q < j && adjacent_seq(m, fid)[q] == FaceId(h as u32) {
                skirt_gain(m, fid, q)
            } else {
                Multiset::empty()
            },
        ));
        assert(losses_into(m, fid, s2, h, j) =~= losses_into(m, fid, s1, h, j).add(
            if q < j && adjacent_seq(m, fid)[q] == FaceId(h as u32) {
                skirt_loss(m, fid, q)
            } else {
                Multiset::empty()
            },
        ));
    }
}

/// Lifting face `fid` leaves the sides of every other face as they were.
proof fn lemma_sides_extrusion<P, N>(m: Mesh<P, N>, e: Mesh<P, N>, fid: int)
    requires
        extrusion_ctx(m, e, fid),
    ensures
        forall|h: int| 0 <= h < m.nf() && h != fid ==> #[trigger] loop_sides(e, h) == loop_sides(m, h),
{
    assert forall|h: int| 0 <= h < m.nf() && h != fid implies #[trigger] loop_sides(e, h) == loop_sides(
        m,
        h,
    ) by {
        let l = m.face_loop(h);
        assert(e.faces@[h] == m.faces@[h]);
        assert forall|j: int| 0 <= j < l.len() implies side(e, #[trigger] l[j].0 as int) == side(
            m,
            l[j].0 as int,
        ) by {
            let k = l[j].0 as int;
            assert(m.loop_entry_ok(h, j));
            assert(m.oriented_edges@[k].face.0 == h);
            if in_ring(m, fid, k) {
                let i = choose|i: int| 0 <= i < m.face_loop(fid).len() && #[trigger] m.face_loop(fid)[i].0 == k;
                assert(m.loop_entry_ok(fid, i));
                assert(m.oriented_edges@[m.face_loop(fid)[i].0 as int].face.0 == fid);
            }
            assert(e.oriented_edges@[k] == m.oriented_edges@[k]);
            assert(m.oe_edge_ok(k));
            let x = m.oriented_edges@[k].edge.0 as int;
            if on_ring(m, fid, x) {
                let i = choose|i: int|
                    0 <= i < m.face_loop(fid).len() && #[trigger] m.oriented_edges@[m.face_loop(
                        fid,
                    )[i].0 as int].edge.0 == x;
                assert(e.edges@[x] == bottom_edge(m, fid, i));
            } else {
                assert(e.edges@[x] == m.edges@[x]);
            }
        }
        lemma_sides_same(e, l, m, l);
    }
}

/// While merges go on, skirt face `q` still has its four sides, and the two
/// oriented edges of its bottom edge run between the ends of ring entry `q`,
/// one each way.
proof fn lemma_skirt_sides<P, N>(
    m: Mesh<P, N>,
    e: Mesh<P, N>,
    cur: Mesh<P, N>,
    fid: int,
    mi: Seq<int>,
    t: int,
    dro: Set<int>,
    dre: Set<int>,
    drf: Set<int>,
    q: int,
)
    requires
        merge_state(m, e, cur, fid, mi, t, dro, dre, drf),
        0 <= q < m.face_loop(fid).len(),
    ensures
        ({
            let n = m.face_loop(fid).len() as int;
            let k = m.face_loop(fid)[q].0 as int;
            let c = m.oriented_edges@[k].edge.0 as int;
            let v0 = m.start_vertex(k);
            let v1 = m.end_vertex(k);
            let p0 = VertexId((m.nv() + q) as u32);
            let p1 = VertexId((m.nv() + next_index(q, n)) as u32);
            &&& loop_sides(cur, m.nf() + q) == Multiset::empty().insert((p1, p0)).insert((p0, v0)).insert(
                (v0, v1),
            ).insert((v1, p1))
            &&& live_edge(cur, dre, c) ==> Multiset::empty().insert(
                side(cur, cur.edges@[c].oriented_edges[0].0 as int),
            ).insert(side(cur, cur.edges@[c].oriented_edges[1].0 as int)) == Multiset::empty().insert(
                (v0, v1),
            ).insert((v1, v0))
        }),
{
    let n = m.face_loop(fid).len() as int;
    let k = m.face_loop(fid)[q].0 as int;
    let c = m.oriented_edges@[k].edge.0 as int;
    let no = m.noe();
    let sk = m.nf() + q;
    assert(m.loop_entry_ok(fid, q));
    assert(m.oe_edge_ok(k));
    assert(cur.faces@[sk] == e.faces@[sk]);
    let l = cur.face_loop(sk);
    assert(l == seq![
        OrientedEdgeId((no + 4 * q) as u32),
        OrientedEdgeId((no + 4 * q + 1) as u32),
        OrientedEdgeId((no + 4 * q + 2) as u32),
        OrientedEdgeId((no + 4 * q + 3) as u32),
    ]);
    assert forall|r: int| 0 <= r < 4 implies side(cur, #[trigger] (no + 4 * q + r)) == side(e, no + 4 * q + r) by {
        assert(cur.oriented_edges@[no + 4 * q + r].edge == e.oriented_edges@[no + 4 * q + r].edge);
    }
    assert(e.oriented_edges@[no + 4 * q + 0] == skirt_oe(m, fid, q, 0));
    assert(e.oriented_edges@[no + 4 * q + 1] == skirt_oe(m, fid, q, 1));
    assert(e.oriented_edges@[no + 4 * q + 2] == skirt_oe(m, fid, q, 2));
    assert(e.oriented_edges@[no + 4 * q + 3] == skirt_oe(m, fid, q, 3));
    assert(e.edges@[m.ne() + q] == top_edge(m, fid, q));
    assert(e.edges@[m.ne() + n + q] == skirt_edge(m, fid, q));
    lemma_next_index(q, n);
    let qn = next_index(q, n);
    assert(e.edges@[m.ne() + n + qn] == skirt_edge(m, fid, qn));
    assert(e.edges@[c] == bottom_edge(m, fid, q));
    assert(m.loop_step_ok(fid, q));
    let v0 = m.start_vertex(k);
    let v1 = m.end_vertex(k);
    let p0 = VertexId((m.nv() + q) as u32);
    let p1 = VertexId((m.nv() + qn) as u32);
    assert(side(cur, no + 4 * q + 0) == (p1, p0));
    assert(side(cur, no + 4 * q + 1) == (p0, v0));
    assert(side(cur, no + 4 * q + 2) == (v0, v1));
    assert(side(cur, no + 4 * q + 3) == (v1, p1));
    reveal_with_fuel(sides, 5);
    assert(l.drop_last().drop_last().drop_last().drop_last() =~= Seq::<OrientedEdgeId>::empty());
    assert(loop_sides(cur, sk) =~= Multiset::empty().insert((p1, p0)).insert((p0, v0)).insert(
        (v0, v1),
    ).insert((v1, p1)));
    if live_edge(cur, dre, c) {
        // the bottom edge
        assert(cur.edge_slot_ok(c, 0));
        assert(cur.edge_slot_ok(c, 1));
        assert(cur.edges@[c] == e.edges@[c]);
        let a = cur.edges@[c].oriented_edges[0].0 as int;
        let b = cur.edges@[c].oriented_edges[1].0 as int;
        let w = m.edges@[c].vertices;
        assert(side(cur, a) == (w[0], w[1]));
        assert(side(cur, b) == (w[1], w[0]));
        assert(Multiset::empty().insert(side(cur, a)).insert(side(cur, b)) =~= Multiset::empty().insert(
            (v0, v1),
        ).insert((v1, v0)));
    }
}

/// While merges go on, the skirt faces not yet merged have their four sides.
proof fn lemma_unmerged_sides<P, N>(
    m: Mesh<P, N>,
    e: Mesh<P, N>,
    cur: Mesh<P, N>,
    fid: int,
    mi: Seq<int>,
    t: int,
    dro: Set<int>,
    dre: Set<int>,
    drf: Set<int>,
    sel: spec_fn(int) -> bool,
    j: int,
)
    requires
        merge_state(m, e, cur, fid, mi, t, dro, dre, drf),
        0 <= j <= m.face_loop(fid).len(),
        forall|i: int| 0 <= i < m.face_loop(fid).len() ==> drf.contains(m.nf() + i) == #[trigger] sel(i),
    ensures
        sum_range(live_sides(cur, drf), m.nf(), m.nf() + j) == unmerged_sides(m, fid, sel, j),
    decreases j,
{
    if j > 0 {
        lemma_unmerged_sides(m, e, cur, fid, mi, t, dro, dre, drf, sel, j - 1);
        let q = j - 1;
        assert(drf.contains(m.nf() + q) == sel(q));
        if !sel(q) {
            lemma_skirt_sides(m, e, cur, fid, mi, t, dro, dre, drf, q);
            assert(loop_sides(cur, m.nf() + q) =~= skirt_sides(m, fid, q));
        }
        assert(sum_range(live_sides(cur, drf), m.nf(), m.nf() + j) == sum_range(
            live_sides(cur, drf),
            m.nf(),
            m.nf() + q,
        ).add(live_sides(cur, drf)(m.nf() + q)));
    }
}

/// A face of `after` whose loop is that of a live face of `before` has the
/// same sides, when the oriented edges keep their edges and directions and
/// the edges are unchanged.
proof fn lemma_face_sides_kept<P, N>(
    before: Mesh<P, N>,
    after: Mesh<P, N>,
    dro: Set<int>,
    dre: Set<int>,
    drf: Set<int>,
    a: int,
    b: int,
)
    requires
        valid_live(before, dro, dre, drf),
        live_face(before, drf, b),
        0 <= a < after.nf(),
        after.faces@[a] == before.faces@[b],
        after.edges@ == before.edges@,
        after.noe() == before.noe(),
        forall|k: int|
            0 <= k < before.noe() ==> (#[trigger] after.oriented_edges@[k]).edge == before.oriented_edges@[k].edge
                && after.oriented_edges@[k].forward == before.oriented_edges@[k].forward,
    ensures
        loop_sides(after, a) == loop_sides(before, b),
{
    let l = before.face_loop(b);
    assert forall|j: int| 0 <= j < l.len() implies side(after, #[trigger] l[j].0 as int) == side(
        before,
        l[j].0 as int,
    ) by {
        assert(before.loop_entry_ok(b, j));
    }
    lemma_sides_same(after, l, before, l);
}

/// The sides of the faces after the first `t + 1` merges, from those after
/// the first `t`.
proof fn lemma_sides_merge_step<P, N>(
    m: Mesh<P, N>,
    e: Mesh<P, N>,
    cur: Mesh<P, N>,
    cur2: Mesh<P, N>,
    fid: int,
    mi: Seq<int>,
    t: int,
    dro: Set<int>,
    dre: Set<int>,
    drf: Set<int>,
    res: [OrientedEdgeId; 2],
)
    requires
        merge_state(m, e, cur, fid, mi, t, dro, dre, drf),
        t < mi.len(),
        ({
            let q = mi[t];
            let c = m.oriented_edges@[m.face_loop(fid)[q].0 as int].edge.0 as int;
            let of = adjacent_seq(m, fid)[q].0 as int;
            let sk = m.nf() + q;
            &&& mergeable(cur, dro, dre, drf, of, sk, c)
            &&& res == cur.edges@[c].oriented_edges
            &&& cur2.edges@ == cur.edges@
            &&& cur2.noe() == cur.noe()
            &&& cur2.nf() == cur.nf()
            &&& forall|k: int|
                0 <= k < cur.noe() ==> (#[trigger] cur2.oriented_edges@[k]).edge
                    == cur.oriented_edges@[k].edge && cur2.oriented_edges@[k].forward
                    == cur.oriented_edges@[k].forward
            &&& forall|h: int| 0 <= h < cur.nf() && h != of ==> #[trigger] cur2.faces@[h] == cur.faces@[h]
            &&& loop_sides(cur2, of).insert(side(cur, res[0].0 as int)).insert(side(cur, res[1].0 as int))
                == loop_sides(cur, of).add(loop_sides(cur, sk))
        }),
        forall|h: int|
            0 <= h < m.nf() && h != fid ==> #[trigger] loop_sides(cur, h).add(
                losses_into(m, fid, merged_upto(mi, t), h, m.face_loop(fid).len() as int),
            ) == loop_sides(m, h).add(
                gains_into(m, fid, merged_upto(mi, t), h, m.face_loop(fid).len() as int),
            ),
    ensures
        forall|h: int|
            0 <= h < m.nf() && h != fid ==> #[trigger] loop_sides(cur2, h).add(
                losses_into(m, fid, merged_upto(mi, t + 1), h, m.face_loop(fid).len() as int),
            ) == loop_sides(m, h).add(
                gains_into(m, fid, merged_upto(mi, t + 1), h, m.face_loop(fid).len() as int),
            ),
{
    let n = m.face_loop(fid).len() as int;
    let q = mi[t];
    let k = m.face_loop(fid)[q].0 as int;
    let c = m.oriented_edges@[k].edge.0 as int;
    let adj = adjacent_seq(m, fid);
    let of = adj[q].0 as int;
    let sk = m.nf() + q;
    let s1 = merged_upto(mi, t);
    let s2 = merged_upto(mi, t + 1);
    assert forall|i: int| 0 <= i < n implies #[trigger] s2(i) == (s1(i) || i == q) by {
        if merged_before(mi, t + 1, i) && i != q {
            let u = choose|u: int| 0 <= u < t + 1 && #[trigger] mi[u] == i;
            assert(u != t);
        }
        if merged_before(mi, t, i) {
            let u = choose|u: int| 0 <= u < t && #[trigger] mi[u] == i;
            assert(0 <= u < t + 1 && mi[u] == i);
        }
        if i == q {
            assert(0 <= t < t + 1 && mi[t] == i);
        }
    }
    if s1(q) {
        let u = choose|u: int| 0 <= u < t && #[trigger] mi[u] == q;
        assert(mi[u] < mi[t]);
    }
    lemma_adjacency(m, fid);
    assert(adj[q] != FaceId(fid as u32)) by {
        if adj[q] == FaceId(fid as u32) {
            assert(adj.contains(FaceId(fid as u32)));
        }
    }
    lemma_skirt_sides(m, e, cur, fid, mi, t, dro, dre, drf, q);
    let v0 = m.start_vertex(k);
    let v1 = m.end_vertex(k);
    let gain = skirt_gain(m, fid, q);
    let loss = skirt_loss(m, fid, q);
    let l2 = loop_sides(cur2, of);
    let l1 = loop_sides(cur, of);
    assert(l2.insert((v1, v0)) =~= l1.add(gain)) by {
        let x1 = l2.insert(side(cur, res[0].0 as int)).insert(side(cur, res[1].0 as int));
        let y1 = l1.add(loop_sides(cur, sk));
        assert forall|x: (VertexId, VertexId)| #[trigger] l2.insert((v1, v0)).count(x) == l1.add(gain).count(x) by {
            assert(x1.count(x) == y1.count(x));
            let pr = Multiset::empty().insert(side(cur, res[0].0 as int)).insert(side(cur, res[1].0 as int));
            let pr2 = Multiset::<(VertexId, VertexId)>::empty().insert((v0, v1)).insert((v1, v0));
            assert(pr.count(x) == pr2.count(x));
        }
    }
    assert forall|h: int| 0 <= h < m.nf() && h != fid implies #[trigger] loop_sides(cur2, h).add(
        losses_into(m, fid, s2, h, n),
    ) == loop_sides(m, h).add(gains_into(m, fid, s2, h, n)) by {
        lemma_into_extend(m, fid, s1, s2, q, h, n);
        assert(loop_sides(cur, h).add(losses_into(m, fid, s1, h, n)) == loop_sides(m, h).add(
            gains_into(m, fid, s1, h, n),
        ));
        let g1 = gains_into(m, fid, s1, h, n);
        let o1 = losses_into(m, fid, s1, h, n);
        let g2 = gains_into(m, fid, s2, h, n);
        let o2 = losses_into(m, fid, s2, h, n);
        assert(0 <= q < n);
        if h == of {
            assert(adj[q] == FaceId(h as u32));
            assert(g2 == g1.add(gain));
            assert(o2 == o1.add(loss));
            assert(loss =~= Multiset::empty().insert((v1, v0)));
            assert forall|x: (VertexId, VertexId)| #[trigger] loop_sides(cur2, h).add(o2).count(x)
                == loop_sides(m, h).add(g2).count(x) by {
                assert(l1.add(o1).count(x) == loop_sides(m, h).add(g1).count(x));
                assert(l2.insert((v1, v0)).count(x) == l1.add(gain).count(x));
            }
            assert(loop_sides(cur2, h).add(o2) =~= loop_sides(m, h).add(g2));
        } else {
            assert(adj[q] != FaceId(h as u32));
            assert(live_face(cur, drf, h)) by {
                if drf.contains(h) {
                    let u = choose|u: int| 0 <= u < t && h == m.nf() + mi[u];
                }
            }
            let l = cur.face_loop(h);
            assert(cur2.faces@[h] == cur.faces@[h]);
            assert forall|j: int| 0 <= j < l.len() implies side(cur2, #[trigger] l[j].0 as int) == side(
                cur,
                l[j].0 as int,
            ) by {
                assert(cur.loop_entry_ok(h, j));
            }
            lemma_sides_same(cur2, l, cur, l);
            assert(g2 =~= g1);
            assert(o2 =~= o1);
            assert(loop_sides(cur2, h) == loop_sides(cur, h));
        }
    }
}

/// Lifts face `fid` of a valid mesh onto new vertices at `pulled` (one per
/// entry of its loop, in loop order) and joins it to its old boundary with a
/// skirt of quadrilateral faces. Each skirt face whose face across the old
/// boundary is in `orthogonal_faces_sorted` is merged into that face, and the
/// emptied slots of the arenas are filled by moving the last elements in.
/// The faces that take in no skirt face keep their loops, normals and
/// oriented edges. A face that takes in skirt face `i` has, in place of the
/// side of the twin of ring entry `i`, the three other sides of that skirt
/// face (`skirt_gain`); its loop is stated by its sides, the pairs of start
/// and end vertex of its entries, since vertices keep their ids while the
/// compaction renumbers oriented edges. The pulled face and the faces that
/// take in skirt faces keep their normals. The skirt faces that remain are
/// the faces from the old number of faces on: each has the four sides of a
/// skirt face not merged (`skirt_sides`: the lifted side, the two sides
/// between the new and the old vertices, and the side along the ring entry),
/// together they have those of every such skirt face, and none has a normal.
#[verifier::rlimit(100)]
pub fn pull_face<P, N>(
    mesh: &mut Mesh<P, N>,
    fid: FaceId,
    pulled: Vec<Vertex<P>>,
    orthogonal_faces_sorted: &Vec<FaceId>,
)
    requires
        old(mesh).is_valid(),
        old(mesh).oes_in_own_slots(),
        fid.0 < old(mesh).nf(),
        pulled@.len() == old(mesh).face_loop(fid.0 as int).len(),
        old(mesh).nv() + pulled@.len() <= u32::MAX,
        old(mesh).ne() + 2 * pulled@.len() < u32::MAX,
        old(mesh).noe() + 4 * pulled@.len() < u32::MAX,
        old(mesh).nf() + pulled@.len() < u32::MAX,
        sorted_ids(orthogonal_faces_sorted@),
        merges_keep_manifold(*old(mesh), fid.0 as int, orthogonal_faces_sorted@),
    ensures
        final(mesh).is_valid(),
        final(mesh).oes_in_own_slots(),
        ({
            let n = pulled@.len() as int;
            let r = num_merged(adjacent_seq(*old(mesh), fid.0 as int), orthogonal_faces_sorted@) as int;
            &&& final(mesh).vertices@ == old(mesh).vertices@ + pulled@
            &&& final(mesh).ne() == old(mesh).ne() + 2 * n - r
            &&& final(mesh).noe() == old(mesh).noe() + 4 * n - 2 * r
            &&& final(mesh).nf() == old(mesh).nf() + n - r
            &&& final(mesh).face_loop(fid.0 as int) == old(mesh).face_loop(fid.0 as int)
            &&& keeps_untouched(*old(mesh), *final(mesh), fid.0 as int, orthogonal_faces_sorted@)
            &&& forall|h: int|
                0 <= h < old(mesh).nf() ==> #[trigger] final(mesh).faces@[h].normal == old(
                    mesh,
                ).faces@[h].normal
            &&& forall|h: int|
                old(mesh).nf() <= h < final(mesh).nf() ==> #[trigger] final(mesh).faces@[h].normal is None
            &&& forall|i: int|
                0 <= i < n ==> #[trigger] final(mesh).start_vertex(
                    final(mesh).face_loop(fid.0 as int)[i].0 as int,
                ) == VertexId((old(mesh).nv() + i) as u32)
            &&& forall|h: int|
                0 <= h < old(mesh).nf() && h != fid.0 ==> #[trigger] loop_sides(*final(mesh), h).add(
                    losses_into(
                        *old(mesh),
                        fid.0 as int,
                        merged_into(*old(mesh), fid.0 as int, orthogonal_faces_sorted@),
                        h,
                        n,
                    ),
                ) == loop_sides(*old(mesh), h).add(
                    gains_into(
                        *old(mesh),
                        fid.0 as int,
                        merged_into(*old(mesh), fid.0 as int, orthogonal_faces_sorted@),
                        h,
                        n,
                    ),
                )
            &&& forall|h: int|
                old(mesh).nf() <= h < final(mesh).nf() ==> unmerged_skirt(
                    *old(mesh),
                    fid.0 as int,
                    merged_into(*old(mesh), fid.0 as int, orthogonal_faces_sorted@),
                    #[trigger] loop_sides(*final(mesh), h),
                )
            &&& faces_sides(*final(mesh), old(mesh).nf() as int, final(mesh).nf() as int) == unmerged_sides(
                *old(mesh),
                fid.0 as int,
                merged_into(*old(mesh), fid.0 as int, orthogonal_faces_sorted@),
                n,
            )
        }),
{
    let ghost m = *mesh;
    let ghost fi = fid.0 as int;
    proof {
        lemma_valid_gives_partition(m);
        assert forall|j: int| 0 <= j < m.face_loop(fi).len() implies #[trigger] m.face_loop(fi)[j].0
            < m.noe() && m.oriented_edges@[m.face_loop(fi)[j].0 as int].edge.0 < m.ne() && m.twin(
            m.face_loop(fi)[j].0 as int,
        ).0 < m.noe() by {
            assert(m.loop_entry_ok(fi, j));
            let k = m.face_loop(fi)[j].0 as int;
            assert(m.oe_edge_ok(k));
            let x = m.oriented_edges@[k].edge.0 as int;
            assert(m.edge_slot_ok(x, 0));
            assert(m.edge_slot_ok(x, 1));
        }
    }
    let n = mesh.faces[fid.index()].oriented_edges.len();
    let no = mesh.oriented_edges.len();
    let nf = mesh.faces.len();
    // The loop of the pulled face, its start vertices, edges and adjacent faces.
    let mut lp: Vec<OrientedEdgeId> = Vec::new();
    let mut i: usize = 0;
    while i < n
        invariant
            *mesh == m,
            0 <= fi < m.nf(),
            fid.0 == fi,
            n == m.face_loop(fi).len(),
            i <= n,
            lp@ == m.face_loop(fi).take(i as int),
        decreases n - i,
    {
        lp.push(mesh.faces[fid.index()].oriented_edges[i]);
        i = i + 1;
        assert(lp@ =~= m.face_loop(fi).take(i as int));
    }
    assert(lp@ =~= m.face_loop(fi));
    let vof = mesh.vertices_of_face(fid);
    let eof = mesh.edges_of_face(fid);
    let adj = mesh.adjacent_faces(fid);
    assert(adj@ =~= adjacent_seq(m, fi));
    extrude(mesh, fid, pulled, &lp, &vof, &eof);
    let ghost e = *mesh;
    proof {
        assert(extrusion_ctx(m, e, fi));
        lemma_extrusion_valid(m, e, fi);
        lemma_ring_facts(m, e, fi);
        let ortho = orthogonal_faces_sorted@;
        assert forall|h: int| #[trigger] untouched_face(m, fi, ortho, h) implies e.face_loop(h)
            == m.face_loop(h) && e.faces@[h].normal == m.faces@[h].normal by {
            assert(e.faces@[h] == m.faces@[h]);
        }
        assert forall|h: int, j: int|
            untouched_face(m, fi, ortho, h) && 0 <= j < m.face_loop(h).len() implies e.oriented_edges@[(
            #[trigger] m.face_loop(h)[j]).0 as int] == m.oriented_edges@[m.face_loop(h)[j].0 as int] by {
            lemma_untouched_entry(m, fi, ortho, h, j);
        }
        assert(keeps_untouched(m, e, fi, ortho));
        assert forall|h: int| m.nf() <= h < e.nf() implies #[trigger] e.faces@[h].normal is None by {
            let i = h - m.nf();
            assert(e.faces@[m.nf() + i].normal is None);
        }
    }
    // The skirt faces to merge into the orthogonal face across their bottom edge.
    let mut merges: Vec<(FaceId, FaceId, EdgeId)> = Vec::new();
    let ghost mut mi: Seq<int> = Seq::empty();
    let mut i: usize = 0;
    while i < n
        invariant
            n == adj@.len(),
            n == eof@.len(),
            adj@ == adjacent_seq(m, fi),
            eof@ == Seq::new(n as nat, |j: int| m.oriented_edges@[lp@[j].0 as int].edge),
            lp@ == m.face_loop(fi),
            nf == m.nf(),
            m.nf() + n < u32::MAX,
            sorted_ids(orthogonal_faces_sorted@),
            i <= n,
            merges@.len() == mi.len(),
            merges@.len() == num_merged(adj@.take(i as int), orthogonal_faces_sorted@),
            forall|u: int| 0 <= u < mi.len() ==> 0 <= #[trigger] mi[u] < i,
            forall|u: int, w: int| 0 <= u < w < mi.len() ==> mi[u] < mi[w],
            forall|u: int|
                0 <= u < mi.len() ==> #[trigger] merges@[u] == (
                adj@[mi[u]],
                FaceId((nf + mi[u]) as u32),
                eof@[mi[u]],
            ),
            forall|u: int|
                0 <= u < mi.len() ==> orthogonal_faces_sorted@.contains(adj@[#[trigger] mi[u]]),
            forall|j: int|
                0 <= j < i && orthogonal_faces_sorted@.contains(adj@[j]) ==> #[trigger] merged_before(
                    mi,
                    mi.len() as int,
                    j,
                ),
        decreases n - i,
    {
        let ghost prev_mi = mi;
        if contains_sorted(orthogonal_faces_sorted, adj[i]) {
            merges.push((adj[i], FaceId::new(nf + i), eof[i]));
            proof {
                mi = mi.push(i as int);
            }
        }
        proof {
            assert(adj@.take(i + 1).drop_last() =~= adj@.take(i as int));
            assert forall|u: int| 0 <= u < mi.len() implies #[trigger] merges@[u] == (
                adj@[mi[u]],
                FaceId((nf + mi[u]) as u32),
                eof@[mi[u]],
            ) by {
                if u < prev_mi.len() {
                    assert(mi[u] == prev_mi[u]);
                }
            }
            assert forall|u: int| 0 <= u < mi.len() implies orthogonal_faces_sorted@.contains(
                adj@[#[trigger] mi[u]],
            ) by {
                if u < prev_mi.len() {
                    assert(mi[u] == prev_mi[u]);
                }
            }
            assert forall|j: int|
                0 <= j < i + 1 && orthogonal_faces_sorted@.contains(adj@[j]) implies #[trigger] merged_before(
                mi,
                mi.len() as int,
                j,
            ) by {
                if j < i {
                    assert(merged_before(prev_mi, prev_mi.len() as int, j));
                    let u = choose|u: int| 0 <= u < prev_mi.len() && #[trigger] prev_mi[u] == j;
                    assert(mi[u] == j);
                } else {
                    assert(mi[mi.len() - 1] == j);
                }
            }
        }
        i = i + 1;
    }
    assert(adj@.take(n as int) =~= adj@);
    // Merge coplanar skirt faces into the orthogonal faces they border.
    let mut removed_edges: Vec<u32> = Vec::new();
    let mut removed_oedges: Vec<u32> = Vec::new();
    let mut removed_faces: Vec<u32> = Vec::new();
    let ghost mut dro: Set<int> = Set::empty();
    let ghost mut dre: Set<int> = Set::empty();
    let ghost mut drf: Set<int> = Set::empty();
    proof {
        lemma_increasing_len(mi, n as int);
        assert(merge_state(m, e, *mesh, fi, mi, 0, dro, dre, drf));
        lemma_sides_extrusion(m, e, fi);
        assert forall|h: int| 0 <= h < m.nf() && h != fi implies #[trigger] loop_sides(*mesh, h).add(
            losses_into(m, fi, merged_upto(mi, 0), h, n as int),
        ) == loop_sides(m, h).add(gains_into(m, fi, merged_upto(mi, 0), h, n as int)) by {
            lemma_into_none(m, fi, merged_upto(mi, 0), h, n as int);
            assert(loop_sides(*mesh, h).add(Multiset::empty()) =~= loop_sides(m, h).add(Multiset::empty()));
        }
    }
    let mut t: usize = 0;
    while t < merges.len()
        invariant
            merge_state(m, e, *mesh, fi, mi, t as int, dro, dre, drf),
            forall|h: int|
                0 <= h < m.nf() && h != fi ==> #[trigger] loop_sides(*mesh, h).add(
                    losses_into(m, fi, merged_upto(mi, t as int), h, n as int),
                ) == loop_sides(m, h).add(gains_into(m, fi, merged_upto(mi, t as int), h, n as int)),
            merges@.len() == mi.len(),
            mi.len() <= n,
            n == m.face_loop(fi).len(),
            forall|u: int|
                0 <= u < mi.len() ==> #[trigger] merges@[u] == (
                adjacent_seq(m, fi)[mi[u]],
                FaceId((m.nf() + mi[u]) as u32),
                m.oriented_edges@[m.face_loop(fi)[mi[u]].0 as int].edge,
            ),
            forall|u: int|
                0 <= u < mi.len() ==> orthogonal_faces_sorted@.contains(
                    adjacent_seq(m, fi)[#[trigger] mi[u]],
                ),
            merges_keep_manifold(m, fi, orthogonal_faces_sorted@),
            keeps_untouched(m, *mesh, fi, orthogonal_faces_sorted@),
            forall|h: int| 0 <= h < m.nf() ==> #[trigger] mesh.faces@[h].normal == m.faces@[h].normal,
            forall|h: int| m.nf() <= h < mesh.nf() ==> #[trigger] mesh.faces@[h].normal is None,
            removed_oedges@.no_duplicates(),
            removed_edges@.no_duplicates(),
            removed_faces@.no_duplicates(),
            removed_oedges@.len() == 2 * t,
            removed_edges@.len() == t,
            removed_faces@.len() == t,
            forall|x: int|
                #[trigger] dro.contains(x) <==> (0 <= x <= u32::MAX && removed_oedges@.contains(
                    x as u32,
                )),
            forall|x: int|
                #[trigger] dre.contains(x) <==> (0 <= x <= u32::MAX && removed_edges@.contains(
                    x as u32,
                )),
            forall|x: int|
                #[trigger] drf.contains(x) <==> (0 <= x <= u32::MAX && removed_faces@.contains(
                    x as u32,
                )),
        decreases merges@.len() - t,
    {
        let (ofid, skirtid, common_eid) = merges[t];
        let ghost cur = *mesh;
        proof {
            lemma_mergeable_at(m, e, cur, fi, mi, t as int, dro, dre, drf, orthogonal_faces_sorted@);
        }
        let res = merge_face_into(
            mesh,
            ofid,
            skirtid,
            common_eid,
            Ghost(dro),
            Ghost(dre),
            Ghost(drf),
        );
        proof {
            lemma_merge_state_step(m, e, cur, *mesh, fi, mi, t as int, dro, dre, drf, res);
            lemma_sides_merge_step(m, e, cur, *mesh, fi, mi, t as int, dro, dre, drf, res);
            assert(live_edge(cur, dre, common_eid.0 as int));
            assert(cur.edge_slot_ok(common_eid.0 as int, 0));
            assert(cur.edge_slot_ok(common_eid.0 as int, 1));
            assert(!dro.contains(res[0].0 as int));
            assert(!dro.contains(res[1].0 as int));
            assert(!dre.contains(common_eid.0 as int));
            assert(!drf.contains(skirtid.0 as int));
            let ortho = orthogonal_faces_sorted@;
            let sa = adjacent_seq(m, fi);
            assert(merges@[t as int] == (ofid, skirtid, common_eid));
            assert(ofid == sa[mi[t as int]]);
            assert(sa.contains(ofid));
            assert(ortho.contains(ofid));
            assert(skirtid.0 == m.nf() + mi[t as int]);
            assert forall|h: int| #[trigger] untouched_face(m, fi, ortho, h) implies mesh.face_loop(h)
                == m.face_loop(h) && mesh.faces@[h].normal == m.faces@[h].normal by {
                assert(h != ofid.0);
                assert(mesh.faces@[h] == cur.faces@[h]);
            }
            assert forall|h: int, j: int|
                untouched_face(m, fi, ortho, h) && 0 <= j < m.face_loop(h).len() implies mesh.oriented_edges@[(
                #[trigger] m.face_loop(h)[j]).0 as int] == m.oriented_edges@[m.face_loop(h)[j].0 as int] by {
                lemma_untouched_entry(m, fi, ortho, h, j);
                let k = m.face_loop(h)[j].0 as int;
                assert(cur.oriented_edges@[k] == m.oriented_edges@[k]);
                assert(cur.oriented_edges@[k].face != skirtid);
            }
        }
        let ghost ro = removed_oedges@;
        let ghost re = removed_edges@;
        let ghost rf = removed_faces@;
        removed_oedges.push(res[0].0);
        removed_oedges.push(res[1].0);
        removed_edges.push(common_eid.0);
        removed_faces.push(skirtid.0);
        proof {
            dro = dro.insert(res[0].0 as int).insert(res[1].0 as int);
            dre = dre.insert(common_eid.0 as int);
            drf = drf.insert(skirtid.0 as int);
            assert forall|x: u32| removed_oedges@.contains(x) <==> (ro.contains(x) || x == res[0].0
                || x == res[1].0) by {
                if removed_oedges@.contains(x) {
                    let q = choose|q: int| 0 <= q < removed_oedges@.len() && removed_oedges@[q] == x;
                    if q < ro.len() {
                        assert(ro[q] == x);
                    }
                }
                if ro.contains(x) {
                    let q = choose|q: int| 0 <= q < ro.len() && ro[q] == x;
                    assert(removed_oedges@[q] == x);
                }
                if x == res[0].0 {
                    assert(removed_oedges@[ro.len() as int] == x);
                }
                if x == res[1].0 {
                    assert(removed_oedges@[ro.len() + 1int] == x);
                }
            }
            assert forall|x: u32| removed_edges@.contains(x) <==> (re.contains(x) || x
                == common_eid.0) by {
                if removed_edges@.contains(x) {
                    let q = choose|q: int| 0 <= q < removed_edges@.len() && removed_edges@[q] == x;
                    if q < re.len() {
                        assert(re[q] == x);
                    }
                }
                if re.contains(x) {
                    let q = choose|q: int| 0 <= q < re.len() && re[q] == x;
                    assert(removed_edges@[q] == x);
                }
                if x == common_eid.0 {
                    assert(removed_edges@[re.len() as int] == x);
                }
            }
            assert forall|x: u32| removed_faces@.contains(x) <==> (rf.contains(x) || x
                == skirtid.0) by {
                if removed_faces@.contains(x) {
                    let q = choose|q: int| 0 <= q < removed_faces@.len() && removed_faces@[q] == x;
                    if q < rf.len() {
                        assert(rf[q] == x);
                    }
                }
                if rf.contains(x) {
                    let q = choose|q: int| 0 <= q < rf.len() && rf[q] == x;
                    assert(removed_faces@[q] == x);
                }
                if x == skirtid.0 {
                    assert(removed_faces@[rf.len() as int] == x);
                }
            }
            assert forall|a: int, b: int|
                0 <= a < removed_oedges@.len() && 0 <= b < removed_oedges@.len() && a != b implies removed_oedges@[a]
                != removed_oedges@[b] by {
                if a < ro.len() && b >= ro.len() {
                    assert(ro.contains(removed_oedges@[a]));
                } else if b < ro.len() && a >= ro.len() {
                    assert(ro.contains(removed_oedges@[b]));
                } else if a < ro.len() && b < ro.len() {
                    assert(ro[a] != ro[b]);
                }
            }
            assert forall|a: int, b: int|
                0 <= a < removed_edges@.len() && 0 <= b < removed_edges@.len() && a != b implies removed_edges@[a]
                != removed_edges@[b] by {
                if a < re.len() && b >= re.len() {
                    assert(re.contains(removed_edges@[a]));
                } else if b < re.len() && a >= re.len() {
                    assert(re.contains(removed_edges@[b]));
                } else if a < re.len() && b < re.len() {
                    assert(re[a] != re[b]);
                }
            }
            assert forall|a: int, b: int|
                0 <= a < removed_faces@.len() && 0 <= b < removed_faces@.len() && a != b implies removed_faces@[a]
                != removed_faces@[b] by {
                if a < rf.len() && b >= rf.len() {
                    assert(rf.contains(removed_faces@[a]));
                } else if b < rf.len() && a >= rf.len() {
                    assert(rf.contains(removed_faces@[b]));
                } else if a < rf.len() && b < rf.len() {
                    assert(rf[a] != rf[b]);
                }
            }
        }
        t = t + 1;
    }
    let ghost r = mi.len() as int;
    let ghost nv = m.nv();
    let ghost mid = *mesh;
    proof {
        let ortho = orthogonal_faces_sorted@;
        let sel = merged_into(m, fi, ortho);
        assert forall|i: int| 0 <= i < n implies #[trigger] merged_upto(mi, r)(i) == sel(i) by {
            if merged_before(mi, r, i) {
                let u = choose|u: int| 0 <= u < r && #[trigger] mi[u] == i;
                assert(ortho.contains(adjacent_seq(m, fi)[mi[u]]));
            }
        }
        assert forall|h: int| 0 <= h < m.nf() && h != fi implies #[trigger] loop_sides(mid, h).add(
            losses_into(m, fi, sel, h, n as int),
        ) == loop_sides(m, h).add(gains_into(m, fi, sel, h, n as int)) by {
            lemma_into_same(m, fi, merged_upto(mi, r), sel, h, n as int);
        }
        assert forall|i: int| 0 <= i < n implies drf.contains(m.nf() + i) == #[trigger] sel(i) by {
            assert(merged_upto(mi, r)(i) == sel(i));
            if drf.contains(m.nf() + i) {
                let u = choose|u: int| 0 <= u < r && m.nf() + i == m.nf() + mi[u];
                assert(mi[u] == i);
                assert(merged_before(mi, r, i));
            }
            if sel(i) {
                assert(merged_before(mi, r, i));
                let u = choose|u: int| 0 <= u < r && #[trigger] mi[u] == i;
                assert(m.nf() + i == m.nf() + mi[u]);
            }
        }
        lemma_unmerged_sides(m, e, mid, fi, mi, r, dro, dre, drf, sel, n as int);
        assert forall|h: int| m.nf() <= h < m.nf() + n && !drf.contains(h) implies unmerged_skirt(
            m,
            fi,
            sel,
            #[trigger] loop_sides(mid, h),
        ) by {
            let i = h - m.nf();
            assert(m.nf() + i == h);
            assert(!sel(i));
            lemma_skirt_sides(m, e, mid, fi, mi, r, dro, dre, drf, i);
            assert(loop_sides(mid, h) =~= skirt_sides(m, fi, i));
        }
    }
    proof {
        // the state the compaction starts from
        assert forall|i: int| 0 <= i < n implies !dro.contains(#[trigger] lp@[i].0 as int)
            && mesh.start_vertex(lp@[i].0 as int) == VertexId((nv + i) as u32) by {
            assert(lp@[i] == m.face_loop(fi)[i]);
            if dro.contains(lp@[i].0 as int) {
                let u = choose|u: int|
                    0 <= u < r && (lp@[i].0 == m.noe() + 4 * mi[u] + 2 || lp@[i].0 == ring_twin(m, fi, mi[u]));
                assert(!in_ring(m, fi, ring_twin(m, fi, mi[u])));
            }
            assert(e.oriented_edges@[m.face_loop(fi)[i].0 as int] == lifted_oe(m, fi, i));
            assert(e.edges@[m.ne() + i] == top_edge(m, fi, i));
        }
        assert forall|x: int| dro.contains(x) implies 0 <= x < mesh.noe() by {
            let u = choose|u: int|
                0 <= u < r && (x == m.noe() + 4 * mi[u] + 2 || x == ring_twin(m, fi, mi[u]));
        }
        assert forall|x: int| dre.contains(x) implies 0 <= x < mesh.ne() by {
            let u = choose|u: int|
                0 <= u < r && x == m.oriented_edges@[m.face_loop(fi)[mi[u]].0 as int].edge.0;
        }
        assert forall|x: int| drf.contains(x) implies m.nf() <= x < mesh.nf() by {
            let u = choose|u: int| 0 <= u < r && x == m.nf() + mi[u];
        }
        let ortho = orthogonal_faces_sorted@;
        assert forall|h: int, j: int|
            untouched_face(m, fi, ortho, h) && 0 <= j < m.face_loop(h).len() implies !dro.contains(
            (#[trigger] m.face_loop(h)[j]).0 as int,
        ) by {
            lemma_untouched_entry(m, fi, ortho, h, j);
            let k = m.face_loop(h)[j].0 as int;
            if dro.contains(k) {
                let u = choose|u: int|
                    0 <= u < r && (k == m.noe() + 4 * mi[u] + 2 || k == ring_twin(m, fi, mi[u]));
                assert(ortho.contains(adjacent_seq(m, fi)[mi[u]]));
            }
        }
    }
    // Remove the merged oriented edges, the largest index first.
    while removed_oedges.len() > 0
        invariant
            forall|h: int|
                m.nf() <= h < m.nf() + n && !drf.contains(h) ==> unmerged_skirt(
                    m,
                    fi,
                    merged_into(m, fi, orthogonal_faces_sorted@),
                    #[trigger] loop_sides(mid, h),
                ),
            sum_range(live_sides(mid, drf), m.nf(), m.nf() + n) == unmerged_sides(
                m,
                fi,
                merged_into(m, fi, orthogonal_faces_sorted@),
                n as int,
            ),
            forall|h: int|
                m.nf() <= h < m.nf() + n && !drf.contains(h) ==> #[trigger] loop_sides(*mesh, h) == loop_sides(
                    mid,
                    h,
                ),
            forall|h: int|
                0 <= h < m.nf() && h != fi ==> #[trigger] loop_sides(mid, h).add(
                    losses_into(m, fi, merged_into(m, fi, orthogonal_faces_sorted@), h, n as int),
                ) == loop_sides(m, h).add(
                    gains_into(m, fi, merged_into(m, fi, orthogonal_faces_sorted@), h, n as int),
                ),
            forall|h: int| 0 <= h < m.nf() && h != fi ==> #[trigger] loop_sides(*mesh, h) == loop_sides(mid, h),
            valid_live(*mesh, dro, dre, drf),
            removed_oedges@.no_duplicates(),
            forall|x: int|
                #[trigger] dro.contains(x) <==> (0 <= x <= u32::MAX && removed_oedges@.contains(
                    x as u32,
                )),
            forall|x: int| dro.contains(x) ==> 0 <= x < mesh.noe(),
            mesh.noe() + 2 * r == e.noe() + removed_oedges@.len(),
            removed_oedges@.len() <= 2 * r,
            r <= n,
            n == lp@.len(),
            e.noe() == m.noe() + 4 * n,
            e.nf() == m.nf() + n,
            mesh.ne() == e.ne(),
            mesh.nf() == e.nf(),
            mesh.vertices@ == e.vertices@,
            0 <= fi < m.nf(),
            fid.0 == fi,
            mesh.face_loop(fi) == lp@,
            !drf.contains(fi),
            forall|i: int| 0 <= i < n ==> (#[trigger] lp@[i]).0 < m.noe(),
            forall|i: int|
                0 <= i < n ==> !dro.contains(#[trigger] lp@[i].0 as int) && mesh.start_vertex(
                    lp@[i].0 as int,
                ) == VertexId((nv + i) as u32),
            m.is_valid(),
            m.loops_partition(),
            e.ne() == m.ne() + 2 * n,
            forall|x: int| drf.contains(x) ==> m.nf() <= x,
            keeps_untouched(m, *mesh, fi, orthogonal_faces_sorted@),
            forall|h: int| 0 <= h < m.nf() ==> #[trigger] mesh.faces@[h].normal == m.faces@[h].normal,
            forall|h: int| m.nf() <= h < mesh.nf() ==> #[trigger] mesh.faces@[h].normal is None,
            forall|h: int, j: int|
                untouched_face(m, fi, orthogonal_faces_sorted@, h) && 0 <= j < m.face_loop(h).len()
                    ==> !dro.contains((#[trigger] m.face_loop(h)[j]).0 as int),
        decreases removed_oedges@.len(),
    {
        let ghost before = *mesh;
        let ghost lst = removed_oedges@;
        let d = pop_max(&mut removed_oedges);
        proof {
            assert forall|x: int| dro.contains(x) implies 0 <= x <= d by {
                let q = choose|q: int| 0 <= q < lst.len() && lst[q] == x as u32;
            }
        }
        assert(dro.contains(d as int));
        assert(before.noe() > m.noe() + 1);
        remove_dead_oriented_edge(mesh, OrientedEdgeId(d), Ghost(dro), Ghost(dre), Ghost(drf));
        proof {
            assert forall|h: int| 0 <= h < m.nf() && h != fi implies #[trigger] loop_sides(*mesh, h)
                == loop_sides(mid, h) by {
                assert(live_face(before, drf, h));
                let lb = before.face_loop(h);
                let la = mesh.face_loop(h);
                assert(la.len() == lb.len());
                assert forall|j: int| 0 <= j < la.len() implies side(*mesh, #[trigger] la[j].0 as int) == side(
                    before,
                    lb[j].0 as int,
                ) by {
                    assert(before.loop_entry_ok(h, j));
                    let k = lb[j].0 as int;
                    assert(live_oe(before, dro, k));
                    assert(before.oe_edge_ok(k));
                    if k == mesh.noe() {
                        assert(la[j] == OrientedEdgeId(d));
                        assert(d < mesh.noe());
                        assert(mesh.oriented_edges@[d as int] == before.oriented_edges@[k]);
                    } else {
                        assert(la[j] == lb[j]);
                        assert(mesh.oriented_edges@[k] == before.oriented_edges@[k]);
                    }
                }
                lemma_sides_same(*mesh, la, before, lb);
                assert(loop_sides(before, h) == loop_sides(mid, h));
            }
            assert forall|h: int| m.nf() <= h < m.nf() + n && !drf.contains(h) implies #[trigger] loop_sides(
                *mesh,
                h,
            ) == loop_sides(mid, h) by {
                assert(live_face(before, drf, h));
                let lb = before.face_loop(h);
                let la = mesh.face_loop(h);
                assert(la.len() == lb.len());
                assert forall|j: int| 0 <= j < la.len() implies side(*mesh, #[trigger] la[j].0 as int) == side(
                    before,
                    lb[j].0 as int,
                ) by {
                    assert(before.loop_entry_ok(h, j));
                    let k = lb[j].0 as int;
                    assert(live_oe(before, dro, k));
                    assert(before.oe_edge_ok(k));
                    if k == mesh.noe() {
                        assert(la[j] == OrientedEdgeId(d));
                        assert(d < mesh.noe());
                        assert(mesh.oriented_edges@[d as int] == before.oriented_edges@[k]);
                    } else {
                        assert(la[j] == lb[j]);
                        assert(mesh.oriented_edges@[k] == before.oriented_edges@[k]);
                    }
                }
                lemma_sides_same(*mesh, la, before, lb);
                assert(loop_sides(before, h) == loop_sides(mid, h));
            }
            let dro2 = dro.remove(d as int);
            assert forall|i: int| 0 <= i < n implies !dro2.contains(#[trigger] lp@[i].0 as int)
                && mesh.start_vertex(lp@[i].0 as int) == VertexId((nv + i) as u32) by {
                let k = lp@[i].0 as int;
                assert(before.oriented_edges@[k] == before.oriented_edges@[k]);
                assert(mesh.oriented_edges@[k] == before.oriented_edges@[k]);
                assert(before.oe_edge_ok(k)) by {
                    assert(live_oe(before, dro, k));
                }
                assert(mesh.edges@[before.oriented_edges@[k].edge.0 as int].vertices
                    == before.edges@[before.oriented_edges@[k].edge.0 as int].vertices);
            }
            assert(mesh.noe() > m.noe());
            assert(fi < mesh.nf());
            assert(mesh.face_loop(fi).len() == lp@.len()) by {
                assert(mesh.faces@[fi].oriented_edges@.len() == before.faces@[fi].oriented_edges@.len());
            }
            assert forall|j: int| 0 <= j < mesh.face_loop(fi).len() implies #[trigger] mesh.face_loop(
                fi,
            )[j] == lp@[j] by {
                assert(before.face_loop(fi)[j] == lp@[j]);
                assert(lp@[j].0 < m.noe());
            }
            assert(mesh.face_loop(fi) =~= lp@);
            let ortho = orthogonal_faces_sorted@;
            assert forall|h: int| #[trigger] untouched_face(m, fi, ortho, h) implies mesh.face_loop(h)
                == m.face_loop(h) && mesh.faces@[h].normal == m.faces@[h].normal by {
                assert(!drf.contains(h));
                assert(before.face_loop(h) == m.face_loop(h));
                assert forall|jj: int| 0 <= jj < mesh.face_loop(h).len() implies #[trigger] mesh.face_loop(
                    h,
                )[jj] == m.face_loop(h)[jj] by {
                    lemma_untouched_entry(m, fi, ortho, h, jj);
                }
                assert(mesh.face_loop(h) =~= m.face_loop(h));
            }
            assert forall|h: int, j: int|
                untouched_face(m, fi, ortho, h) && 0 <= j < m.face_loop(h).len() implies mesh.oriented_edges@[(
                #[trigger] m.face_loop(h)[j]).0 as int] == m.oriented_edges@[m.face_loop(h)[j].0 as int] by {
                lemma_untouched_entry(m, fi, ortho, h, j);
            }
            dro = dro2;
        }
    }
    // Remove the merged edges, the largest index first.
    while removed_edges.len() > 0
        invariant
            forall|h: int|
                m.nf() <= h < m.nf() + n && !drf.contains(h) ==> unmerged_skirt(
                    m,
                    fi,
                    merged_into(m, fi, orthogonal_faces_sorted@),
                    #[trigger] loop_sides(mid, h),
                ),
            sum_range(live_sides(mid, drf), m.nf(), m.nf() + n) == unmerged_sides(
                m,
                fi,
                merged_into(m, fi, orthogonal_faces_sorted@),
                n as int,
            ),
            forall|h: int|
                m.nf() <= h < m.nf() + n && !drf.contains(h) ==> #[trigger] loop_sides(*mesh, h) == loop_sides(
                    mid,
                    h,
                ),
            forall|h: int|
                0 <= h < m.nf() && h != fi ==> #[trigger] loop_sides(mid, h).add(
                    losses_into(m, fi, merged_into(m, fi, orthogonal_faces_sorted@), h, n as int),
                ) == loop_sides(m, h).add(
                    gains_into(m, fi, merged_into(m, fi, orthogonal_faces_sorted@), h, n as int),
                ),
            forall|h: int| 0 <= h < m.nf() && h != fi ==> #[trigger] loop_sides(*mesh, h) == loop_sides(mid, h),
            valid_live(*mesh, dro, dre, drf),
            dro == Set::<int>::empty(),
            removed_edges@.no_duplicates(),
            forall|x: int|
                #[trigger] dre.contains(x) <==> (0 <= x <= u32::MAX && removed_edges@.contains(
                    x as u32,
                )),
            forall|x: int| dre.contains(x) ==> 0 <= x < mesh.ne(),
            mesh.ne() + r == e.ne() + removed_edges@.len(),
            mesh.noe() + 2 * r == e.noe(),
            mesh.nf() == e.nf(),
            mesh.vertices@ == e.vertices@,
            e.noe() == m.noe() + 4 * n,
            r <= n,
            n >= 3,
            0 <= fi < m.nf(),
            fid.0 == fi,
            mesh.face_loop(fi) == lp@,
            !drf.contains(fi),
            n == lp@.len(),
            forall|i: int| 0 <= i < n ==> (#[trigger] lp@[i]).0 < m.noe(),
            forall|i: int|
                0 <= i < n ==> !dro.contains(#[trigger] lp@[i].0 as int) && mesh.start_vertex(
                    lp@[i].0 as int,
                ) == VertexId((nv + i) as u32),
            m.is_valid(),
            m.loops_partition(),
            e.ne() == m.ne() + 2 * n,
            e.nf() == m.nf() + n,
            forall|x: int| drf.contains(x) ==> m.nf() <= x,
            keeps_untouched(m, *mesh, fi, orthogonal_faces_sorted@),
            forall|h: int| 0 <= h < m.nf() ==> #[trigger] mesh.faces@[h].normal == m.faces@[h].normal,
            forall|h: int| m.nf() <= h < mesh.nf() ==> #[trigger] mesh.faces@[h].normal is None,
        decreases removed_edges@.len(),
    {
        let ghost before = *mesh;
        let ghost lst = removed_edges@;
        let d = pop_max(&mut removed_edges);
        proof {
            assert forall|x: int| dre.contains(x) implies 0 <= x <= d by {
                let q = choose|q: int| 0 <= q < lst.len() && lst[q] == x as u32;
            }
        }
        assert(dre.contains(d as int));
        assert(before.noe() > m.noe());
        remove_dead_edge(mesh, EdgeId(d), Ghost(dro), Ghost(dre), Ghost(drf));
        proof {
            assert forall|h: int| 0 <= h < m.nf() && h != fi implies #[trigger] loop_sides(*mesh, h)
                == loop_sides(mid, h) by {
                assert(live_face(before, drf, h));
                let l = before.face_loop(h);
                assert(mesh.face_loop(h) == l);
                assert forall|j: int| 0 <= j < l.len() implies side(*mesh, #[trigger] l[j].0 as int) == side(
                    before,
                    l[j].0 as int,
                ) by {
                    assert(before.loop_entry_ok(h, j));
                    assert(live_oe(before, dro, l[j].0 as int));
                }
                lemma_sides_same(*mesh, l, before, l);
                assert(loop_sides(before, h) == loop_sides(mid, h));
            }
            assert forall|h: int| m.nf() <= h < m.nf() + n && !drf.contains(h) implies #[trigger] loop_sides(
                *mesh,
                h,
            ) == loop_sides(mid, h) by {
                assert(live_face(before, drf, h));
                let l = before.face_loop(h);
                assert(mesh.face_loop(h) == l);
                assert forall|j: int| 0 <= j < l.len() implies side(*mesh, #[trigger] l[j].0 as int) == side(
                    before,
                    l[j].0 as int,
                ) by {
                    assert(before.loop_entry_ok(h, j));
                    assert(live_oe(before, dro, l[j].0 as int));
                }
                lemma_sides_same(*mesh, l, before, l);
                assert(loop_sides(before, h) == loop_sides(mid, h));
            }
            assert forall|i: int| 0 <= i < n implies !dro.contains(#[trigger] lp@[i].0 as int)
                && mesh.start_vertex(lp@[i].0 as int) == VertexId((nv + i) as u32) by {
                let k = lp@[i].0 as int;
                assert(live_oe(before, dro, k));
                assert(mesh.start_vertex(k) == before.start_vertex(k));
            }
            let ortho = orthogonal_faces_sorted@;
            assert forall|h: int, j: int|
                untouched_face(m, fi, ortho, h) && 0 <= j < m.face_loop(h).len() implies mesh.oriented_edges@[(
                #[trigger] m.face_loop(h)[j]).0 as int] == m.oriented_edges@[m.face_loop(h)[j].0 as int] by {
                lemma_untouched_entry(m, fi, ortho, h, j);
                let k = m.face_loop(h)[j].0 as int;
                assert(before.oriented_edges@[k] == m.oriented_edges@[k]);
            }
            dre = dre.remove(d as int);
        }
    }
    // Remove the merged skirt faces, the largest index first.
    proof {
        lemma_sum_ext(live_sides(*mesh, drf), live_sides(mid, drf), m.nf(), m.nf() + n);
        assert forall|h: int| m.nf() <= h < mesh.nf() && !drf.contains(h) implies unmerged_skirt(
            m,
            fi,
            merged_into(m, fi, orthogonal_faces_sorted@),
            #[trigger] loop_sides(*mesh, h),
        ) by {
            assert(loop_sides(*mesh, h) == loop_sides(mid, h));
        }
    }
    while removed_faces.len() > 0
        invariant
            forall|h: int|
                m.nf() <= h < mesh.nf() && !drf.contains(h) ==> unmerged_skirt(
                    m,
                    fi,
                    merged_into(m, fi, orthogonal_faces_sorted@),
                    #[trigger] loop_sides(*mesh, h),
                ),
            sum_range(live_sides(*mesh, drf), m.nf(), mesh.nf()) == unmerged_sides(
                m,
                fi,
                merged_into(m, fi, orthogonal_faces_sorted@),
                n as int,
            ),
            forall|h: int|
                0 <= h < m.nf() && h != fi ==> #[trigger] loop_sides(mid, h).add(
                    losses_into(m, fi, merged_into(m, fi, orthogonal_faces_sorted@), h, n as int),
                ) == loop_sides(m, h).add(
                    gains_into(m, fi, merged_into(m, fi, orthogonal_faces_sorted@), h, n as int),
                ),
            forall|h: int| 0 <= h < m.nf() && h != fi ==> #[trigger] loop_sides(*mesh, h) == loop_sides(mid, h),
            valid_live(*mesh, dro, dre, drf),
            dro == Set::<int>::empty(),
            dre == Set::<int>::empty(),
            removed_faces@.no_duplicates(),
            forall|x: int|
                #[trigger] drf.contains(x) <==> (0 <= x <= u32::MAX && removed_faces@.contains(
                    x as u32,
                )),
            forall|x: int| drf.contains(x) ==> m.nf() <= x < mesh.nf(),
            mesh.nf() + r == e.nf() + removed_faces@.len(),
            mesh.ne() + r == e.ne(),
            mesh.noe() + 2 * r == e.noe(),
            mesh.vertices@ == e.vertices@,
            e.noe() == m.noe() + 4 * n,
            r <= n,
            n >= 3,
            0 <= fi < m.nf(),
            fid.0 == fi,
            mesh.face_loop(fi) == lp@,
            n == lp@.len(),
            forall|i: int| 0 <= i < n ==> (#[trigger] lp@[i]).0 < m.noe(),
            forall|i: int|
                0 <= i < n ==> !dro.contains(#[trigger] lp@[i].0 as int) && mesh.start_vertex(
                    lp@[i].0 as int,
                ) == VertexId((nv + i) as u32),
            m.is_valid(),
            m.loops_partition(),
            e.nf() == m.nf() + n,
            keeps_untouched(m, *mesh, fi, orthogonal_faces_sorted@),
            forall|h: int| 0 <= h < m.nf() ==> #[trigger] mesh.faces@[h].normal == m.faces@[h].normal,
            forall|h: int| m.nf() <= h < mesh.nf() ==> #[trigger] mesh.faces@[h].normal is None,
        decreases removed_faces@.len(),
    {
        let ghost before = *mesh;
        let ghost lst = removed_faces@;
        let d = pop_max(&mut removed_faces);
        proof {
            assert forall|x: int| drf.contains(x) implies 0 <= x <= d by {
                let q = choose|q: int| 0 <= q < lst.len() && lst[q] == x as u32;
            }
        }
        assert(drf.contains(d as int));
        assert(before.noe() > m.noe());
        remove_dead_face(mesh, FaceId(d), Ghost(dro), Ghost(dre), Ghost(drf));
        proof {
            assert forall|h: int| 0 <= h < m.nf() && h != fi implies #[trigger] loop_sides(*mesh, h)
                == loop_sides(mid, h) by {
                assert(live_face(before, drf, h));
                assert(mesh.faces@[h] == before.faces@[h]);
                let l = before.face_loop(h);
                assert forall|j: int| 0 <= j < l.len() implies side(*mesh, #[trigger] l[j].0 as int) == side(
                    before,
                    l[j].0 as int,
                ) by {
                    assert(before.loop_entry_ok(h, j));
                }
                lemma_sides_same(*mesh, l, before, l);
                assert(loop_sides(before, h) == loop_sides(mid, h));
            }
            let lb = before.nf();
            let fb = live_sides(before, drf);
            let drf2 = drf.remove(d as int);
            let fa = live_sides(*mesh, drf2);
            assert forall|h: int| m.nf() <= h < lb - 1 && h != d implies #[trigger] fa(h) == fb(h) by {
                if !drf.contains(h) {
                    lemma_face_sides_kept(before, *mesh, dro, dre, drf, h, h);
                }
            }
            let ortho = orthogonal_faces_sorted@;
            assert forall|h: int| m.nf() <= h < mesh.nf() && !drf2.contains(h) implies unmerged_skirt(
                m,
                fi,
                merged_into(m, fi, ortho),
                #[trigger] loop_sides(*mesh, h),
            ) by {
                if h == d {
                    assert(!drf.contains(lb - 1));
                    lemma_face_sides_kept(before, *mesh, dro, dre, drf, h, lb - 1);
                    assert(m.nf() <= lb - 1);
                } else {
                    lemma_face_sides_kept(before, *mesh, dro, dre, drf, h, h);
                }
            }
            if (d as int) < lb - 1 {
                assert(!drf.contains(lb - 1));
                lemma_face_sides_kept(before, *mesh, dro, dre, drf, d as int, lb - 1);
                assert(fa(d as int) == fb(lb - 1));
                lemma_sum_one_changed(fa, fb, m.nf(), lb - 1, d as int);
                assert(sum_range(fa, m.nf(), lb - 1) =~= sum_range(fb, m.nf(), lb));
            } else {
                lemma_sum_ext(fa, fb, m.nf(), lb - 1);
                assert(sum_range(fa, m.nf(), lb - 1) =~= sum_range(fb, m.nf(), lb));
            }
            assert(mesh.faces@[fi] == before.faces@[fi]);
            assert forall|i: int| 0 <= i < n implies !dro.contains(#[trigger] lp@[i].0 as int)
                && mesh.start_vertex(lp@[i].0 as int) == VertexId((nv + i) as u32) by {
                let k = lp@[i].0 as int;
                assert(mesh.oriented_edges@[k].edge == before.oriented_edges@[k].edge);
            }
            let ortho = orthogonal_faces_sorted@;
            assert forall|h: int| #[trigger] untouched_face(m, fi, ortho, h) implies mesh.face_loop(h)
                == m.face_loop(h) && mesh.faces@[h].normal == m.faces@[h].normal by {
                assert(mesh.faces@[h] == before.faces@[h]);
            }
            assert forall|h: int| m.nf() <= h < mesh.nf() implies #[trigger] mesh.faces@[h].normal
                is None by {
                if h == d {
                    assert(mesh.faces@[h] == before.faces@[before.nf() - 1]);
                    assert(before.faces@[before.nf() - 1].normal is None);
                } else {
                    assert(mesh.faces@[h] == before.faces@[h]);
                }
            }
            assert forall|h: int, j: int|
                untouched_face(m, fi, ortho, h) && 0 <= j < m.face_loop(h).len() implies mesh.oriented_edges@[(
                #[trigger] m.face_loop(h)[j]).0 as int] == m.oriented_edges@[m.face_loop(h)[j].0 as int] by {
                lemma_untouched_entry(m, fi, ortho, h, j);
                let k = m.face_loop(h)[j].0 as int;
                assert(before.oriented_edges@[k] == m.oriented_edges@[k]);
            }
            drf = drf.remove(d as int);
        }
    }
    proof {
        assert(dro =~= Set::<int>::empty());
        assert(dre =~= Set::<int>::empty());
        assert(drf =~= Set::<int>::empty());
        lemma_sum_ext(|h: int| loop_sides(*mesh, h), live_sides(*mesh, drf), m.nf(), mesh.nf());
        lemma_valid_live_gives_valid(*mesh);
        assert(r == num_merged(adjacent_seq(m, fi), orthogonal_faces_sorted@));
    }
}


/// Whether no two consecutive edges of face `fid` border the same face of
/// `ortho`, which `pull_face` needs.
pub fn check_merges_keep_manifold<P, N>(mesh: &Mesh<P, N>, fid: FaceId, ortho: &Vec<FaceId>) -> (res:
    bool)
    requires
        mesh.face_twins_walkable(fid.0 as int),
        sorted_ids(ortho@),
    ensures
        res == merges_keep_manifold(*mesh, fid.0 as int, ortho@),
{
    let adj = mesh.adjacent_faces(fid);
    let ghost sa = adjacent_seq(*mesh, fid.0 as int);
    assert(adj@ =~= sa);
    let n = adj.len();
    let mut i: usize = 0;
    while i < n
        invariant
            sa == adjacent_seq(*mesh, fid.0 as int),
            adj@ == sa,
            n == sa.len(),
            sorted_ids(ortho@),
            i <= n,
            forall|t: int|
                0 <= t < i && ortho@.contains(#[trigger] sa[t]) && ortho@.contains(
                    sa[next_index(t, n as int)],
                ) ==> sa[t] != sa[next_index(t, n as int)],
        decreases n - i,
    {
        let a = adj[i];
        let j = if i + 1 == n {
            0
        } else {
            i + 1
        };
        assert(j == next_index(i as int, n as int));
        let b = adj[j];
        if a == b && contains_sorted(ortho, a) && contains_sorted(ortho, b) {
            assert(ortho@.contains(sa[i as int]));
            assert(ortho@.contains(sa[next_index(i as int, sa.len() as int)]));
            assert(sa[i as int] == sa[next_index(i as int, sa.len() as int)]);
            return false;
        }
        i = i + 1;
    }
    true
}

} // verus!
