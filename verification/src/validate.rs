//! Validation of the topology of a mesh: every violated condition of a valid
//! mesh is reported.

use vstd::prelude::*;

use crate::ids::{EdgeId, OrientedEdgeId};
use crate::mesh::{count_in_faces, count_in_loop, Mesh};

verus! {

/// A violated condition of a valid mesh; the fields are the indices and
/// values that the condition is about.
#[derive(Clone, Copy, Debug, PartialEq, Eq)]
pub enum MeshError {
    /// A slot of an edge names a vertex that does not exist.
    EdgeVertexOutOfRange { edge: usize, slot: usize, vertex: usize, num_vertices: usize },
    /// A slot of an edge names an oriented edge that does not exist.
    EdgeOrientedEdgeOutOfRange {
        edge: usize,
        slot: usize,
        oriented_edge: usize,
        num_oriented_edges: usize,
    },
    /// The oriented edge in a slot of an edge refers to another edge.
    EdgeBackRefMismatch { edge: usize, slot: usize, oriented_edge: usize, back_ref: usize },
    /// The oriented edge in a slot of an edge has the other direction; the
    /// expected direction is forward for slot 0.
    EdgeDirectionMismatch { edge: usize, slot: usize, oriented_edge: usize, forward: bool },
    /// An oriented edge names an edge that does not exist.
    OrientedEdgeEdgeOutOfRange { oriented_edge: usize, edge: usize, num_edges: usize },
    /// An oriented edge names a face that does not exist.
    OrientedEdgeFaceOutOfRange { oriented_edge: usize, face: usize, num_faces: usize },
    /// An oriented edge names a face whose loop does not hold it.
    OrientedEdgeNotInLoop { oriented_edge: usize, face: usize },
    /// A face loop names, at `position`, an oriented edge that does not exist.
    FaceOrientedEdgeOutOfRange {
        face: usize,
        position: usize,
        oriented_edge: usize,
        num_oriented_edges: usize,
    },
    /// No face loop holds an oriented edge.
    OrientedEdgeUnreferenced { oriented_edge: usize },
    /// Several face loop entries hold an oriented edge.
    OrientedEdgeMultiplyReferenced { oriented_edge: usize, count: usize },
    /// An oriented edge of a loop ends elsewhere than where the next one starts.
    LoopGap {
        face: usize,
        position: usize,
        end_vertex: usize,
        next_position: usize,
        start_vertex: usize,
    },
    /// Both oriented edges of an edge belong to the same face.
    NonManifoldEdge { edge: usize, face: usize },
    /// A face loop has fewer than three oriented edges.
    FaceTooSmall { face: usize, len: usize },
}

/// `c` capped at `usize::MAX`.
pub open spec fn capped(c: nat) -> int {
    if c <= usize::MAX {
        c as int
    } else {
        usize::MAX as int
    }
}

/// Whether `err` describes a condition that `m` violates.
pub open spec fn is_violation<P, N>(m: Mesh<P, N>, err: MeshError) -> bool {
    match err {
        MeshError::EdgeVertexOutOfRange { edge, slot, vertex, num_vertices } => {
            &&& edge < m.ne()
            &&& slot < 2
            &&& vertex == m.edges@[edge as int].vertices[slot as int].0
            &&& vertex >= m.nv()
            &&& num_vertices == m.nv()
        },
        MeshError::EdgeOrientedEdgeOutOfRange { edge, slot, oriented_edge, num_oriented_edges } => {
            &&& edge < m.ne()
            &&& slot < 2
            &&& oriented_edge == m.edges@[edge as int].oriented_edges[slot as int].0
            &&& oriented_edge >= m.noe()
            &&& num_oriented_edges == m.noe()
        },
        MeshError::EdgeBackRefMismatch { edge, slot, oriented_edge, back_ref } => {
            &&& edge < m.ne()
            &&& slot < 2
            &&& oriented_edge == m.edges@[edge as int].oriented_edges[slot as int].0
            &&& oriented_edge < m.noe()
            &&& back_ref == m.oriented_edges@[oriented_edge as int].edge.0
            &&& m.oriented_edges@[oriented_edge as int].edge.0 != edge as u32
        },
        MeshError::EdgeDirectionMismatch { edge, slot, oriented_edge, forward } => {
            &&& edge < m.ne()
            &&& slot < 2
            &&& oriented_edge == m.edges@[edge as int].oriented_edges[slot as int].0
            &&& oriented_edge < m.noe()
            &&& forward == m.oriented_edges@[oriented_edge as int].forward
            &&& forward != (slot == 0)
        },
        MeshError::OrientedEdgeEdgeOutOfRange { oriented_edge, edge, num_edges } => {
            &&& oriented_edge < m.noe()
            &&& edge == m.oriented_edges@[oriented_edge as int].edge.0
            &&& edge >= m.ne()
            &&& num_edges == m.ne()
        },
        MeshError::OrientedEdgeFaceOutOfRange { oriented_edge, face, num_faces } => {
            &&& oriented_edge < m.noe()
            &&& face == m.oriented_edges@[oriented_edge as int].face.0
            &&& face >= m.nf()
            &&& num_faces == m.nf()
        },
        MeshError::OrientedEdgeNotInLoop { oriented_edge, face } => {
            &&& oriented_edge < m.noe()
            &&& face == m.oriented_edges@[oriented_edge as int].face.0
            &&& face < m.nf()
            &&& !m.face_loop(face as int).contains(OrientedEdgeId(oriented_edge as u32))
        },
        MeshError::FaceOrientedEdgeOutOfRange {
            face,
            position,
            oriented_edge,
            num_oriented_edges,
        } => {
            &&& face < m.nf()
            &&& position < m.face_loop(face as int).len()
            &&& oriented_edge == m.face_loop(face as int)[position as int].0
            &&& oriented_edge >= m.noe()
            &&& num_oriented_edges == m.noe()
        },
        MeshError::OrientedEdgeUnreferenced { oriented_edge } => {
            &&& oriented_edge < m.noe()
            &&& count_in_faces(m.faces@, oriented_edge as int) == 0
        },
        MeshError::OrientedEdgeMultiplyReferenced { oriented_edge, count } => {
            &&& oriented_edge < m.noe()
            &&& count_in_faces(m.faces@, oriented_edge as int) >= 2
            &&& count == capped(count_in_faces(m.faces@, oriented_edge as int))
        },
        MeshError::LoopGap { face, position, end_vertex, next_position, start_vertex } => {
            let l = m.face_loop(face as int);
            &&& face < m.nf()
            &&& position < l.len()
            &&& next_position == (position + 1) % (l.len() as int)
            &&& l[position as int].0 < m.noe()
            &&& l[next_position as int].0 < m.noe()
            &&& m.oriented_edges@[l[position as int].0 as int].edge.0 < m.ne()
            &&& m.oriented_edges@[l[next_position as int].0 as int].edge.0 < m.ne()
            &&& end_vertex == m.end_vertex(l[position as int].0 as int).0
            &&& start_vertex == m.start_vertex(l[next_position as int].0 as int).0
            &&& end_vertex != start_vertex
        },
        MeshError::NonManifoldEdge { edge, face } => {
            let o0 = m.edges@[edge as int].oriented_edges[0].0 as int;
            let o1 = m.edges@[edge as int].oriented_edges[1].0 as int;
            &&& edge < m.ne()
            &&& o0 < m.noe()
            &&& o1 < m.noe()
            &&& m.oriented_edges@[o0].face.0 < m.nf()
            &&& m.oriented_edges@[o1].face.0 < m.nf()
            &&& m.oriented_edges@[o0].face == m.oriented_edges@[o1].face
            &&& face == m.oriented_edges@[o0].face.0
        },
        MeshError::FaceTooSmall { face, len } => {
            &&& face < m.nf()
            &&& len == m.face_loop(face as int).len()
            &&& len < 3
        },
    }
}

/// A mesh is valid exactly when it violates none of the conditions.
pub proof fn lemma_valid_iff_no_violation<P, N>(m: Mesh<P, N>)
    ensures
        m.is_valid() <==> forall|err: MeshError| !#[trigger] is_violation(m, err),
{
    if m.is_valid() {
        assert forall|err: MeshError| !#[trigger] is_violation(m, err) by {
            match err {
                MeshError::EdgeVertexOutOfRange { edge, slot, .. } => {
                    if slot < 2 && edge < m.ne() {
                        assert(m.edge_vertex_ok(edge as int, slot as int));
                    }
                },
                MeshError::EdgeOrientedEdgeOutOfRange { edge, slot, .. } => {
                    if slot < 2 && edge < m.ne() {
                        assert(m.edge_slot_ok(edge as int, slot as int));
                    }
                },
                MeshError::EdgeBackRefMismatch { edge, slot, .. } => {
                    if slot < 2 && edge < m.ne() {
                        assert(m.edge_slot_ok(edge as int, slot as int));
                    }
                },
                MeshError::EdgeDirectionMismatch { edge, slot, .. } => {
                    if slot < 2 && edge < m.ne() {
                        assert(m.edge_slot_ok(edge as int, slot as int));
                    }
                },
                MeshError::OrientedEdgeEdgeOutOfRange { oriented_edge, .. } => {
                    if oriented_edge < m.noe() {
                        assert(m.oe_edge_ok(oriented_edge as int));
                    }
                },
                MeshError::OrientedEdgeFaceOutOfRange { oriented_edge, .. } => {
                    if oriented_edge < m.noe() {
                        assert(m.oe_face_ok(oriented_edge as int));
                    }
                },
                MeshError::OrientedEdgeNotInLoop { oriented_edge, .. } => {
                    if oriented_edge < m.noe() {
                        assert(m.oe_face_ok(oriented_edge as int));
                    }
                },
                MeshError::FaceOrientedEdgeOutOfRange { face, position, .. } => {
                    if face < m.nf() && position < m.face_loop(face as int).len() {
                        assert(m.loop_entry_ok(face as int, position as int));
                    }
                },
                MeshError::OrientedEdgeUnreferenced { oriented_edge } => {
                    if oriented_edge < m.noe() {
                        assert(count_in_faces(m.faces@, oriented_edge as int) == 1);
                    }
                },
                MeshError::OrientedEdgeMultiplyReferenced { oriented_edge, .. } => {
                    if oriented_edge < m.noe() {
                        assert(count_in_faces(m.faces@, oriented_edge as int) == 1);
                    }
                },
                MeshError::LoopGap { face, position, next_position, .. } => {
                    let l = m.face_loop(face as int);
                    if face < m.nf() && position < l.len() && next_position == (position + 1) % (
                    l.len() as int) {
                        assert(m.loop_step_ok(face as int, position as int));
                    }
                },
                MeshError::NonManifoldEdge { edge, .. } => {
                    if edge < m.ne() {
                        assert(m.edge_manifold_ok(edge as int));
                    }
                },
                MeshError::FaceTooSmall { face, .. } => {
                    if face < m.nf() {
                        assert(m.face_loop(face as int).len() >= 3);
                    }
                },
            }
        }
    }
    if forall|err: MeshError| !#[trigger] is_violation(m, err) {
        assert(m.vertices.len() == m.vertices@.len());
        assert(m.edges.len() == m.edges@.len());
        assert(m.oriented_edges.len() == m.oriented_edges@.len());
        assert(m.faces.len() == m.faces@.len());
        assert forall|i: int, s: int| 0 <= i < m.ne() && 0 <= s < 2 implies #[trigger] m.edge_vertex_ok(
            i,
            s,
        ) by {
            let v = m.edges@[i].vertices[s].0;
            assert(!is_violation(
                m,
                MeshError::EdgeVertexOutOfRange {
                    edge: i as usize,
                    slot: s as usize,
                    vertex: v as usize,
                    num_vertices: m.nv() as usize,
                },
            ));
        }
        assert forall|i: int, s: int| 0 <= i < m.ne() && 0 <= s < 2 implies #[trigger] m.edge_slot_ok(
            i,
            s,
        ) by {
            let o = m.edges@[i].oriented_edges[s].0;
            assert(!is_violation(
                m,
                MeshError::EdgeOrientedEdgeOutOfRange {
                    edge: i as usize,
                    slot: s as usize,
                    oriented_edge: o as usize,
                    num_oriented_edges: m.noe() as usize,
                },
            ));
            if o < m.noe() {
                assert(!is_violation(
                    m,
                    MeshError::EdgeBackRefMismatch {
                        edge: i as usize,
                        slot: s as usize,
                        oriented_edge: o as usize,
                        back_ref: m.oriented_edges@[o as int].edge.0 as usize,
                    },
                ));
                assert(!is_violation(
                    m,
                    MeshError::EdgeDirectionMismatch {
                        edge: i as usize,
                        slot: s as usize,
                        oriented_edge: o as usize,
                        forward: m.oriented_edges@[o as int].forward,
                    },
                ));
            }
        }
        assert forall|k: int| 0 <= k < m.noe() implies #[trigger] m.oe_edge_ok(k) by {
            assert(!is_violation(
                m,
                MeshError::OrientedEdgeEdgeOutOfRange {
                    oriented_edge: k as usize,
                    edge: m.oriented_edges@[k].edge.0 as usize,
                    num_edges: m.ne() as usize,
                },
            ));
        }
        assert forall|k: int| 0 <= k < m.noe() implies #[trigger] m.oe_face_ok(k) by {
            let f = m.oriented_edges@[k].face.0;
            assert(!is_violation(
                m,
                MeshError::OrientedEdgeFaceOutOfRange {
                    oriented_edge: k as usize,
                    face: f as usize,
                    num_faces: m.nf() as usize,
                },
            ));
            assert(!is_violation(
                m,
                MeshError::OrientedEdgeNotInLoop { oriented_edge: k as usize, face: f as usize },
            ));
        }
        assert forall|f: int, j: int| 0 <= f < m.nf() && 0 <= j < m.face_loop(f).len() implies #[trigger] m.loop_entry_ok(
            f,
            j,
        ) by {
            let o = m.face_loop(f)[j].0;
            assert(m.faces@[f].oriented_edges.len() == m.face_loop(f).len());
            assert(!is_violation(
                m,
                MeshError::FaceOrientedEdgeOutOfRange {
                    face: f as usize,
                    position: j as usize,
                    oriented_edge: o as usize,
                    num_oriented_edges: m.noe() as usize,
                },
            ));
        }
        assert forall|k: int| 0 <= k < m.noe() implies #[trigger] count_in_faces(m.faces@, k) == 1 by {
            assert(!is_violation(m, MeshError::OrientedEdgeUnreferenced { oriented_edge: k as usize }));
            assert(!is_violation(
                m,
                MeshError::OrientedEdgeMultiplyReferenced {
                    oriented_edge: k as usize,
                    count: capped(count_in_faces(m.faces@, k)) as usize,
                },
            ));
        }
        assert forall|f: int, j: int| 0 <= f < m.nf() && 0 <= j < m.face_loop(f).len() implies #[trigger] m.loop_step_ok(
            f,
            j,
        ) by {
            let l = m.face_loop(f);
            assert(m.faces@[f].oriented_edges.len() == l.len());
            let j2 = (j + 1) % (l.len() as int);
            assert(m.loop_entry_ok(f, j));
            assert(m.loop_entry_ok(f, j2));
            assert(m.oe_edge_ok(l[j].0 as int));
            assert(m.oe_edge_ok(l[j2].0 as int));
            assert(!is_violation(
                m,
                MeshError::LoopGap {
                    face: f as usize,
                    position: j as usize,
                    end_vertex: m.end_vertex(l[j].0 as int).0 as usize,
                    next_position: j2 as usize,
                    start_vertex: m.start_vertex(l[j2].0 as int).0 as usize,
                },
            ));
        }
        assert forall|i: int| 0 <= i < m.ne() implies #[trigger] m.edge_manifold_ok(i) by {
            assert(m.edge_slot_ok(i, 0));
            assert(m.edge_slot_ok(i, 1));
            let o0 = m.edges@[i].oriented_edges[0].0 as int;
            let o1 = m.edges@[i].oriented_edges[1].0 as int;
            assert(m.oe_face_ok(o0));
            assert(m.oe_face_ok(o1));
            assert(!is_violation(
                m,
                MeshError::NonManifoldEdge {
                    edge: i as usize,
                    face: m.oriented_edges@[o0].face.0 as usize,
                },
            ));
        }
        assert forall|f: int| 0 <= f < m.nf() implies #[trigger] m.face_loop(f).len() >= 3 by {
            assert(m.faces@[f].oriented_edges.len() == m.face_loop(f).len());
            assert(!is_violation(
                m,
                MeshError::FaceTooSmall { face: f as usize, len: m.face_loop(f).len() as usize },
            ));
        }
    }
}


/// The check that reports an error: checks run in stages, each over an
/// index, each index going through sub-checks.
pub open spec fn err_pos(err: MeshError) -> (int, int, int) {
    match err {
        MeshError::EdgeVertexOutOfRange { edge, slot, .. } => (0, edge as int, slot as int),
        MeshError::EdgeOrientedEdgeOutOfRange { edge, slot, .. } => (
            0,
            edge as int,
            2 + 3 * slot,
        ),
        MeshError::EdgeBackRefMismatch { edge, slot, .. } => (0, edge as int, 3 + 3 * slot),
        MeshError::EdgeDirectionMismatch { edge, slot, .. } => (0, edge as int, 4 + 3 * slot),
        MeshError::OrientedEdgeEdgeOutOfRange { oriented_edge, .. } => (1, oriented_edge as int, 0),
        MeshError::OrientedEdgeFaceOutOfRange { oriented_edge, .. } => (1, oriented_edge as int, 1),
        MeshError::OrientedEdgeNotInLoop { oriented_edge, .. } => (1, oriented_edge as int, 2),
        MeshError::FaceOrientedEdgeOutOfRange { face, position, .. } => (
            2,
            face as int,
            position as int,
        ),
        MeshError::OrientedEdgeUnreferenced { oriented_edge } => (3, oriented_edge as int, 0),
        MeshError::OrientedEdgeMultiplyReferenced { oriented_edge, .. } => (
            3,
            oriented_edge as int,
            1,
        ),
        MeshError::LoopGap { face, position, .. } => (4, face as int, position as int),
        MeshError::NonManifoldEdge { edge, .. } => (5, edge as int, 0),
        MeshError::FaceTooSmall { face, .. } => (6, face as int, 0),
    }
}

/// Whether the checks have passed the check that reports `err`.
pub open spec fn checked(err: MeshError, stage: int, index: int, sub: int) -> bool {
    let (s, i, j) = err_pos(err);
    s < stage || (s == stage && (i < index || (i == index && j < sub)))
}

/// Position `p` of a check comes before position `q`.
pub open spec fn pos_before(p: (int, int, int), q: (int, int, int)) -> bool {
    p.0 < q.0 || (p.0 == q.0 && (p.1 < q.1 || (p.1 == q.1 && p.2 < q.2)))
}

/// The errors come in the order of the checks that report them, each once.
pub open spec fn in_check_order(errors: Seq<MeshError>) -> bool {
    forall|a: int, b: int|
        0 <= a < b < errors.len() ==> pos_before(
            err_pos(#[trigger] errors[a]),
            err_pos(#[trigger] errors[b]),
        )
}

/// `errors` holds exactly the violations that the checks have passed, in
/// the order of the checks.
pub open spec fn reports<P, N>(
    m: Mesh<P, N>,
    errors: Seq<MeshError>,
    stage: int,
    index: int,
    sub: int,
) -> bool {
    &&& forall|x: MeshError| #[trigger]
        errors.contains(x) <==> (is_violation(m, x) && checked(x, stage, index, sub))
    &&& in_check_order(errors)
}

/// One check: `found` is the violation at position (stage, index, sub), if
/// there is one, and is appended.
proof fn lemma_reports_step<P, N>(
    m: Mesh<P, N>,
    errors: Seq<MeshError>,
    stage: int,
    index: int,
    sub: int,
    found: Option<MeshError>,
    next: Seq<MeshError>,
)
    requires
        reports(m, errors, stage, index, sub),
        found matches Some(e) ==> is_violation(m, e) && err_pos(e) == (stage, index, sub),
        forall|x: MeshError|
            is_violation(m, x) && #[trigger] err_pos(x) == (stage, index, sub) ==> found == Some(x),
        next == (match found {
            Some(e) => errors.push(e),
            None => errors,
        }),
    ensures
        reports(m, next, stage, index, sub + 1),
{
    if let Some(e) = found {
        assert forall|a: int, b: int| 0 <= a < b < next.len() implies pos_before(
            err_pos(#[trigger] next[a]),
            err_pos(#[trigger] next[b]),
        ) by {
            assert(next[a] == errors[a]);
            if b == errors.len() {
                assert(errors.contains(errors[a]));
                assert(checked(errors[a], stage, index, sub));
            } else {
                assert(next[b] == errors[b]);
            }
        }
    }
    assert forall|x: MeshError| #[trigger] next.contains(x) <==> (is_violation(m, x) && checked(
        x,
        stage,
        index,
        sub + 1,
    )) by {
        match found {
            Some(e) => {
                if next.contains(x) {
                    let j = choose|j: int| 0 <= j < next.len() && next[j] == x;
                    if j < errors.len() {
                        assert(errors[j] == x);
                        assert(errors.contains(x));
                    }
                }
                if errors.contains(x) {
                    let j = choose|j: int| 0 <= j < errors.len() && errors[j] == x;
                    assert(next[j] == x);
                }
                if x == e {
                    assert(next[errors.len() as int] == x);
                }
                if is_violation(m, x) && checked(x, stage, index, sub + 1) && !checked(
                    x,
                    stage,
                    index,
                    sub,
                ) {
                    assert(err_pos(x) == (stage, index, sub));
                }
            },
            None => {
                if is_violation(m, x) && checked(x, stage, index, sub + 1) && !checked(
                    x,
                    stage,
                    index,
                    sub,
                ) {
                    assert(err_pos(x) == (stage, index, sub));
                }
            },
        }
    }
}

/// Moving on to the next index once every sub-check of an index is done.
proof fn lemma_reports_next_index<P, N>(
    m: Mesh<P, N>,
    errors: Seq<MeshError>,
    stage: int,
    index: int,
    sub: int,
)
    requires
        reports(m, errors, stage, index, sub),
        forall|x: MeshError|
            is_violation(m, x) && (#[trigger] err_pos(x)).0 == stage && err_pos(x).1 == index
                ==> err_pos(x).2 < sub,
    ensures
        reports(m, errors, stage, index + 1, 0),
{
    assert forall|x: MeshError| #[trigger] errors.contains(x) <==> (is_violation(m, x) && checked(
        x,
        stage,
        index + 1,
        0,
    )) by {
        if is_violation(m, x) && err_pos(x).0 == stage && err_pos(x).1 == index {
            assert(err_pos(x).2 < sub);
        }
    }
}

/// Moving on to the next stage once every index of a stage is done.
proof fn lemma_reports_next_stage<P, N>(m: Mesh<P, N>, errors: Seq<MeshError>, stage: int, index: int)
    requires
        reports(m, errors, stage, index, 0),
        forall|x: MeshError|
            is_violation(m, x) && (#[trigger] err_pos(x)).0 == stage ==> err_pos(x).1 < index,
    ensures
        reports(m, errors, stage + 1, 0, 0),
{
    assert forall|x: MeshError| #[trigger] errors.contains(x) <==> (is_violation(m, x) && checked(
        x,
        stage + 1,
        0,
        0,
    )) by {
        if is_violation(m, x) && err_pos(x).0 == stage {
            assert(err_pos(x).1 < index);
        }
    }
}

/// The violations of an index stay within the sub-checks of its stage.
proof fn lemma_err_pos_bounds<P, N>(m: Mesh<P, N>, x: MeshError)
    requires
        is_violation(m, x),
    ensures
        err_pos(x).0 == 0 ==> err_pos(x).1 < m.ne() && err_pos(x).2 < 8,
        err_pos(x).0 == 1 ==> err_pos(x).1 < m.noe() && err_pos(x).2 < 3,
        err_pos(x).0 == 2 ==> err_pos(x).1 < m.nf() && err_pos(x).2 < m.face_loop(
            err_pos(x).1,
        ).len(),
        err_pos(x).0 == 3 ==> err_pos(x).1 < m.noe() && err_pos(x).2 < 2,
        err_pos(x).0 == 4 ==> err_pos(x).1 < m.nf() && err_pos(x).2 < m.face_loop(
            err_pos(x).1,
        ).len(),
        err_pos(x).0 == 5 ==> err_pos(x).1 < m.ne() && err_pos(x).2 < 1,
        err_pos(x).0 == 6 ==> err_pos(x).1 < m.nf() && err_pos(x).2 < 1,
        0 <= err_pos(x).0 <= 6,
        0 <= err_pos(x).1,
        0 <= err_pos(x).2,
{
}


fn push_found(errors: &mut Vec<MeshError>, found: Option<MeshError>)
    ensures
        final(errors)@ == (match found {
            Some(e) => old(errors)@.push(e),
            None => old(errors)@,
        }),
{
    match found {
        Some(e) => errors.push(e),
        None => {},
    }
}

/// The checks of edge `i`: the vertex in each slot, then the oriented edge in
/// each slot and its back reference and direction.
fn check_edge<P, N>(mesh: &Mesh<P, N>, i: usize, errors: &mut Vec<MeshError>)
    requires
        i < mesh.ne(),
        reports(*mesh, old(errors)@, 0, i as int, 0),
    ensures
        reports(*mesh, final(errors)@, 0, i + 1, 0),
{
    let n_verts = mesh.vertices.len();
    let n_oes = mesh.oriented_edges.len();
    let edge = mesh.edges[i];
    let mut slot: usize = 0;
    while slot < 2
        invariant
            i < mesh.ne(),
            edge == mesh.edges@[i as int],
            n_verts == mesh.nv(),
            n_oes == mesh.noe(),
            slot <= 2,
            reports(*mesh, errors@, 0, i as int, slot as int),
        decreases 2 - slot,
    {
        let vid = edge.vertices[slot];
        let found = if vid.index() >= n_verts {
            Some(
                MeshError::EdgeVertexOutOfRange {
                    edge: i,
                    slot,
                    vertex: vid.index(),
                    num_vertices: n_verts,
                },
            )
        } else {
            None
        };
        let ghost before = errors@;
        push_found(errors, found);
        proof {
            lemma_reports_step(*mesh, before, 0, i as int, slot as int, found, errors@);
        }
        slot = slot + 1;
    }
    let mut slot: usize = 0;
    while slot < 2
        invariant
            i < mesh.ne(),
            edge == mesh.edges@[i as int],
            n_verts == mesh.nv(),
            n_oes == mesh.noe(),
            slot <= 2,
            reports(*mesh, errors@, 0, i as int, 2 + 3 * slot),
        decreases 2 - slot,
    {
        let oe_id = edge.oriented_edges[slot];
        let found = if oe_id.index() >= n_oes {
            Some(
                MeshError::EdgeOrientedEdgeOutOfRange {
                    edge: i,
                    slot,
                    oriented_edge: oe_id.index(),
                    num_oriented_edges: n_oes,
                },
            )
        } else {
            None
        };
        let ghost before = errors@;
        push_found(errors, found);
        proof {
            lemma_reports_step(*mesh, before, 0, i as int, 2 + 3 * slot, found, errors@);
        }
        let found = if oe_id.index() < n_oes {
            let oe = mesh.oriented_edges[oe_id.index()];
            if oe.edge != EdgeId::new(i) {
                Some(
                    MeshError::EdgeBackRefMismatch {
                        edge: i,
                        slot,
                        oriented_edge: oe_id.index(),
                        back_ref: oe.edge.index(),
                    },
                )
            } else {
                None
            }
        } else {
            None
        };
        let ghost before = errors@;
        push_found(errors, found);
        proof {
            lemma_reports_step(*mesh, before, 0, i as int, 3 + 3 * slot, found, errors@);
        }
        let found = if oe_id.index() < n_oes {
            let oe = mesh.oriented_edges[oe_id.index()];
            let expected_forward = slot == 0;
            if oe.forward != expected_forward {
                Some(
                    MeshError::EdgeDirectionMismatch {
                        edge: i,
                        slot,
                        oriented_edge: oe_id.index(),
                        forward: oe.forward,
                    },
                )
            } else {
                None
            }
        } else {
            None
        };
        let ghost before = errors@;
        push_found(errors, found);
        proof {
            lemma_reports_step(*mesh, before, 0, i as int, 4 + 3 * slot, found, errors@);
        }
        slot = slot + 1;
    }
    proof {
        assert forall|x: MeshError|
            is_violation(*mesh, x) && (#[trigger] err_pos(x)).0 == 0 && err_pos(x).1 == i implies err_pos(
            x,
        ).2 < 8 by {
            lemma_err_pos_bounds(*mesh, x);
        }
        lemma_reports_next_index(*mesh, errors@, 0, i as int, 8);
    }
}


/// The checks of oriented edge `k`: its edge, its face, and that the loop of
/// its face holds it.
#[verifier::rlimit(30)]
fn check_oriented_edge<P, N>(mesh: &Mesh<P, N>, k: usize, errors: &mut Vec<MeshError>)
    requires
        k < mesh.noe(),
        reports(*mesh, old(errors)@, 1, k as int, 0),
    ensures
        reports(*mesh, final(errors)@, 1, k + 1, 0),
{
    let n_edges = mesh.edges.len();
    let n_faces = mesh.faces.len();
    let oe = mesh.oriented_edges[k];
    let found = if oe.edge.index() >= n_edges {
        Some(
            MeshError::OrientedEdgeEdgeOutOfRange {
                oriented_edge: k,
                edge: oe.edge.index(),
                num_edges: n_edges,
            },
        )
    } else {
        None
    };
    let ghost before = errors@;
    push_found(errors, found);
    proof {
        lemma_reports_step(*mesh, before, 1, k as int, 0, found, errors@);
    }
    let found = if oe.face.index() >= n_faces {
        Some(
            MeshError::OrientedEdgeFaceOutOfRange {
                oriented_edge: k,
                face: oe.face.index(),
                num_faces: n_faces,
            },
        )
    } else {
        None
    };
    let ghost before = errors@;
    push_found(errors, found);
    proof {
        lemma_reports_step(*mesh, before, 1, k as int, 1, found, errors@);
    }
    let found = if oe.face.index() < n_faces {
        let held = crate::compact::position_of(
            &mesh.faces[oe.face.index()].oriented_edges,
            OrientedEdgeId::new(k),
        );
        if held.is_none() {
            Some(MeshError::OrientedEdgeNotInLoop { oriented_edge: k, face: oe.face.index() })
        } else {
            None
        }
    } else {
        None
    };
    let ghost before = errors@;
    push_found(errors, found);
    proof {
        lemma_reports_step(*mesh, before, 1, k as int, 2, found, errors@);
        assert forall|x: MeshError|
            is_violation(*mesh, x) && (#[trigger] err_pos(x)).0 == 1 && err_pos(x).1 == k implies err_pos(
            x,
        ).2 < 3 by {
            lemma_err_pos_bounds(*mesh, x);
        }
        lemma_reports_next_index(*mesh, errors@, 1, k as int, 3);
    }
}

/// The checks of the entries of the loop of face `f`, which also count how
/// often each oriented edge is used.
fn check_face_entries<P, N>(
    mesh: &Mesh<P, N>,
    f: usize,
    counts: &mut Vec<usize>,
    errors: &mut Vec<MeshError>,
)
    requires
        f < mesh.nf(),
        reports(*mesh, old(errors)@, 2, f as int, 0),
        old(counts)@.len() == mesh.noe(),
        forall|k: int|
            0 <= k < mesh.noe() ==> #[trigger] old(counts)@[k] == capped(
                count_in_faces(mesh.faces@.take(f as int), k),
            ),
    ensures
        reports(*mesh, final(errors)@, 2, f + 1, 0),
        final(counts)@.len() == mesh.noe(),
        forall|k: int|
            0 <= k < mesh.noe() ==> #[trigger] final(counts)@[k] == capped(
                count_in_faces(mesh.faces@.take(f + 1), k),
            ),
{
    let n_oes = mesh.oriented_edges.len();
    let oes = &mesh.faces[f].oriented_edges;
    let mut j: usize = 0;
    while j < oes.len()
        invariant
            f < mesh.nf(),
            oes@ == mesh.face_loop(f as int),
            n_oes == mesh.noe(),
            j <= oes@.len(),
            reports(*mesh, errors@, 2, f as int, j as int),
            counts@.len() == mesh.noe(),
            forall|k: int|
                0 <= k < mesh.noe() ==> #[trigger] counts@[k] == capped(
                    count_in_faces(mesh.faces@.take(f as int), k) + count_in_loop(
                        oes@.take(j as int),
                        k,
                    ),
                ),
        decreases oes@.len() - j,
    {
        let oe_id = oes[j];
        let found = if oe_id.index() < n_oes {
            let c = counts[oe_id.index()];
            if c < usize::MAX {
                counts.set(oe_id.index(), c + 1);
            }
            None
        } else {
            Some(
                MeshError::FaceOrientedEdgeOutOfRange {
                    face: f,
                    position: j,
                    oriented_edge: oe_id.index(),
                    num_oriented_edges: n_oes,
                },
            )
        };
        proof {
            assert(oes@.take(j + 1).drop_last() =~= oes@.take(j as int));
        }
        let ghost before = errors@;
        push_found(errors, found);
        proof {
            lemma_reports_step(*mesh, before, 2, f as int, j as int, found, errors@);
        }
        j = j + 1;
    }
    proof {
        assert(oes@.take(j as int) =~= oes@);
        assert(mesh.faces@.take(f + 1).drop_last() =~= mesh.faces@.take(f as int));
        assert forall|x: MeshError|
            is_violation(*mesh, x) && (#[trigger] err_pos(x)).0 == 2 && err_pos(x).1 == f implies err_pos(
            x,
        ).2 < j by {
            lemma_err_pos_bounds(*mesh, x);
        }
        lemma_reports_next_index(*mesh, errors@, 2, f as int, j as int);
    }
}

/// The checks of how often oriented edge `k` is used by the face loops.
fn check_count<P, N>(mesh: &Mesh<P, N>, k: usize, count: usize, errors: &mut Vec<MeshError>)
    requires
        k < mesh.noe(),
        count == capped(count_in_faces(mesh.faces@, k as int)),
        reports(*mesh, old(errors)@, 3, k as int, 0),
    ensures
        reports(*mesh, final(errors)@, 3, k + 1, 0),
{
    let found = if count == 0 {
        Some(MeshError::OrientedEdgeUnreferenced { oriented_edge: k })
    } else {
        None
    };
    let ghost before = errors@;
    push_found(errors, found);
    proof {
        lemma_reports_step(*mesh, before, 3, k as int, 0, found, errors@);
    }
    let found = if count >= 2 {
        Some(MeshError::OrientedEdgeMultiplyReferenced { oriented_edge: k, count })
    } else {
        None
    };
    let ghost before = errors@;
    push_found(errors, found);
    proof {
        lemma_reports_step(*mesh, before, 3, k as int, 1, found, errors@);
        assert forall|x: MeshError|
            is_violation(*mesh, x) && (#[trigger] err_pos(x)).0 == 3 && err_pos(x).1 == k implies err_pos(
            x,
        ).2 < 2 by {
            lemma_err_pos_bounds(*mesh, x);
        }
        lemma_reports_next_index(*mesh, errors@, 3, k as int, 2);
    }
}


/// The checks that each oriented edge of the loop of face `f` ends where the
/// next one starts; entries whose references are out of range are skipped.
fn check_face_steps<P, N>(mesh: &Mesh<P, N>, f: usize, errors: &mut Vec<MeshError>)
    requires
        f < mesh.nf(),
        reports(*mesh, old(errors)@, 4, f as int, 0),
    ensures
        reports(*mesh, final(errors)@, 4, f + 1, 0),
{
    let n_oes = mesh.oriented_edges.len();
    let n_edges = mesh.edges.len();
    let oes = &mesh.faces[f].oriented_edges;
    let n = oes.len();
    let mut j: usize = 0;
    while j < n
        invariant
            f < mesh.nf(),
            oes@ == mesh.face_loop(f as int),
            n == oes@.len(),
            n_oes == mesh.noe(),
            n_edges == mesh.ne(),
            j <= n,
            reports(*mesh, errors@, 4, f as int, j as int),
        decreases n - j,
    {
        let oe_a_id = oes[j];
        let next = (j + 1) % n;
        let oe_b_id = oes[next];
        let found = if oe_a_id.index() >= n_oes || oe_b_id.index() >= n_oes {
            None
        } else {
            let oe_a = mesh.oriented_edges[oe_a_id.index()];
            let oe_b = mesh.oriented_edges[oe_b_id.index()];
            if oe_a.edge.index() >= n_edges || oe_b.edge.index() >= n_edges {
                None
            } else {
                let edge_a = mesh.edges[oe_a.edge.index()];
                let edge_b = mesh.edges[oe_b.edge.index()];
                let end_vid = if oe_a.forward {
                    edge_a.vertices[1]
                } else {
                    edge_a.vertices[0]
                };
                let start_vid = if oe_b.forward {
                    edge_b.vertices[0]
                } else {
                    edge_b.vertices[1]
                };
                if end_vid != start_vid {
                    Some(
                        MeshError::LoopGap {
                            face: f,
                            position: j,
                            end_vertex: end_vid.index(),
                            next_position: next,
                            start_vertex: start_vid.index(),
                        },
                    )
                } else {
                    None
                }
            }
        };
        let ghost before = errors@;
        push_found(errors, found);
        proof {
            lemma_reports_step(*mesh, before, 4, f as int, j as int, found, errors@);
        }
        j = j + 1;
    }
    proof {
        assert forall|x: MeshError|
            is_violation(*mesh, x) && (#[trigger] err_pos(x)).0 == 4 && err_pos(x).1 == f implies err_pos(
            x,
        ).2 < n by {
            lemma_err_pos_bounds(*mesh, x);
        }
        lemma_reports_next_index(*mesh, errors@, 4, f as int, n as int);
    }
}

/// The check that the two oriented edges of edge `i` belong to different faces.
fn check_manifold<P, N>(mesh: &Mesh<P, N>, i: usize, errors: &mut Vec<MeshError>)
    requires
        i < mesh.ne(),
        reports(*mesh, old(errors)@, 5, i as int, 0),
    ensures
        reports(*mesh, final(errors)@, 5, i + 1, 0),
{
    let n_oes = mesh.oriented_edges.len();
    let n_faces = mesh.faces.len();
    let oe0_id = mesh.edges[i].oriented_edges[0];
    let oe1_id = mesh.edges[i].oriented_edges[1];
    let found = if oe0_id.index() >= n_oes || oe1_id.index() >= n_oes {
        None
    } else {
        let face0 = mesh.oriented_edges[oe0_id.index()].face;
        let face1 = mesh.oriented_edges[oe1_id.index()].face;
        if face0.index() < n_faces && face1.index() < n_faces && face0 == face1 {
            Some(MeshError::NonManifoldEdge { edge: i, face: face0.index() })
        } else {
            None
        }
    };
    let ghost before = errors@;
    push_found(errors, found);
    proof {
        lemma_reports_step(*mesh, before, 5, i as int, 0, found, errors@);
        assert forall|x: MeshError|
            is_violation(*mesh, x) && (#[trigger] err_pos(x)).0 == 5 && err_pos(x).1 == i implies err_pos(
            x,
        ).2 < 1 by {
            lemma_err_pos_bounds(*mesh, x);
        }
        lemma_reports_next_index(*mesh, errors@, 5, i as int, 1);
    }
}

/// The check that face `f` has at least three oriented edges.
fn check_face_size<P, N>(mesh: &Mesh<P, N>, f: usize, errors: &mut Vec<MeshError>)
    requires
        f < mesh.nf(),
        reports(*mesh, old(errors)@, 6, f as int, 0),
    ensures
        reports(*mesh, final(errors)@, 6, f + 1, 0),
{
    let len = mesh.faces[f].oriented_edges.len();
    let found = if len < 3 {
        Some(MeshError::FaceTooSmall { face: f, len })
    } else {
        None
    };
    let ghost before = errors@;
    push_found(errors, found);
    proof {
        lemma_reports_step(*mesh, before, 6, f as int, 0, found, errors@);
        assert forall|x: MeshError|
            is_violation(*mesh, x) && (#[trigger] err_pos(x)).0 == 6 && err_pos(x).1 == f implies err_pos(
            x,
        ).2 < 1 by {
            lemma_err_pos_bounds(*mesh, x);
        }
        lemma_reports_next_index(*mesh, errors@, 6, f as int, 1);
    }
}

/// Validates the topology of `mesh`. Returns `Ok(())` if it is valid, or
/// `Err` with every violated condition.
pub fn validate_mesh<P, N>(mesh: &Mesh<P, N>) -> (res: Result<(), Vec<MeshError>>)
    ensures
        res is Ok <==> mesh.is_valid(),
        match res {
            Ok(()) => forall|x: MeshError| !#[trigger] is_violation(*mesh, x),
            Err(errors) => {
                &&& errors@.len() > 0
                &&& forall|x: MeshError| #[trigger] errors@.contains(x) <==> is_violation(*mesh, x)
                &&& in_check_order(errors@)
                &&& errors@.no_duplicates()
            },
        },
{
    let mut errors: Vec<MeshError> = Vec::new();
    let n_faces = mesh.faces.len();
    let n_oes = mesh.oriented_edges.len();
    let n_edges = mesh.edges.len();
    // Every edge must reference valid vertices and valid OE back-refs.
    let mut i: usize = 0;
    while i < n_edges
        invariant
            n_edges == mesh.ne(),
            i <= n_edges,
            reports(*mesh, errors@, 0, i as int, 0),
        decreases n_edges - i,
    {
        check_edge(mesh, i, &mut errors);
        i = i + 1;
    }
    proof {
        assert forall|x: MeshError| is_violation(*mesh, x) && (#[trigger] err_pos(x)).0 == 0 implies err_pos(
            x,
        ).1 < n_edges by {
            lemma_err_pos_bounds(*mesh, x);
        }
        lemma_reports_next_stage(*mesh, errors@, 0, n_edges as int);
    }
    // Every oriented edge must reference a valid edge and face.
    let mut k: usize = 0;
    while k < n_oes
        invariant
            n_oes == mesh.noe(),
            k <= n_oes,
            reports(*mesh, errors@, 1, k as int, 0),
        decreases n_oes - k,
    {
        check_oriented_edge(mesh, k, &mut errors);
        k = k + 1;
    }
    proof {
        assert forall|x: MeshError| is_violation(*mesh, x) && (#[trigger] err_pos(x)).0 == 1 implies err_pos(
            x,
        ).1 < n_oes by {
            lemma_err_pos_bounds(*mesh, x);
        }
        lemma_reports_next_stage(*mesh, errors@, 1, n_oes as int);
    }
    // Each oriented edge must appear in exactly one face loop.
    let mut counts: Vec<usize> = Vec::new();
    let mut k: usize = 0;
    while k < n_oes
        invariant
            n_oes == mesh.noe(),
            k <= n_oes,
            counts@.len() == k,
            forall|t: int| 0 <= t < k ==> counts@[t] == 0,
        decreases n_oes - k,
    {
        counts.push(0);
        k = k + 1;
    }
    proof {
        assert forall|t: int| 0 <= t < mesh.noe() implies #[trigger] counts@[t] == capped(
            count_in_faces(mesh.faces@.take(0), t),
        ) by {
            assert(mesh.faces@.take(0).len() == 0);
        }
    }
    let mut f: usize = 0;
    while f < n_faces
        invariant
            n_faces == mesh.nf(),
            f <= n_faces,
            reports(*mesh, errors@, 2, f as int, 0),
            counts@.len() == mesh.noe(),
            forall|t: int|
                0 <= t < mesh.noe() ==> #[trigger] counts@[t] == capped(
                    count_in_faces(mesh.faces@.take(f as int), t),
                ),
        decreases n_faces - f,
    {
        check_face_entries(mesh, f, &mut counts, &mut errors);
        f = f + 1;
    }
    proof {
        assert(mesh.faces@.take(n_faces as int) =~= mesh.faces@);
        assert forall|x: MeshError| is_violation(*mesh, x) && (#[trigger] err_pos(x)).0 == 2 implies err_pos(
            x,
        ).1 < n_faces by {
            lemma_err_pos_bounds(*mesh, x);
        }
        lemma_reports_next_stage(*mesh, errors@, 2, n_faces as int);
    }
    let mut k: usize = 0;
    while k < n_oes
        invariant
            n_oes == mesh.noe(),
            k <= n_oes,
            reports(*mesh, errors@, 3, k as int, 0),
            counts@.len() == mesh.noe(),
            forall|t: int|
                0 <= t < mesh.noe() ==> #[trigger] counts@[t] == capped(
                    count_in_faces(mesh.faces@, t),
                ),
        decreases n_oes - k,
    {
        check_count(mesh, k, counts[k], &mut errors);
        k = k + 1;
    }
    proof {
        assert forall|x: MeshError| is_violation(*mesh, x) && (#[trigger] err_pos(x)).0 == 3 implies err_pos(
            x,
        ).1 < n_oes by {
            lemma_err_pos_bounds(*mesh, x);
        }
        lemma_reports_next_stage(*mesh, errors@, 3, n_oes as int);
    }
    // Consecutive oriented edges in each face loop must share a vertex.
    let mut f: usize = 0;
    while f < n_faces
        invariant
            n_faces == mesh.nf(),
            f <= n_faces,
            reports(*mesh, errors@, 4, f as int, 0),
        decreases n_faces - f,
    {
        check_face_steps(mesh, f, &mut errors);
        f = f + 1;
    }
    proof {
        assert forall|x: MeshError| is_violation(*mesh, x) && (#[trigger] err_pos(x)).0 == 4 implies err_pos(
            x,
        ).1 < n_faces by {
            lemma_err_pos_bounds(*mesh, x);
        }
        lemma_reports_next_stage(*mesh, errors@, 4, n_faces as int);
    }
    // Closed-manifold: each edge's two oriented edges must belong to different faces.
    let mut i: usize = 0;
    while i < n_edges
        invariant
            n_edges == mesh.ne(),
            i <= n_edges,
            reports(*mesh, errors@, 5, i as int, 0),
        decreases n_edges - i,
    {
        check_manifold(mesh, i, &mut errors);
        i = i + 1;
    }
    proof {
        assert forall|x: MeshError| is_violation(*mesh, x) && (#[trigger] err_pos(x)).0 == 5 implies err_pos(
            x,
        ).1 < n_edges by {
            lemma_err_pos_bounds(*mesh, x);
        }
        lemma_reports_next_stage(*mesh, errors@, 5, n_edges as int);
    }
    // Every face loop has at least three oriented edges.
    let mut f: usize = 0;
    while f < n_faces
        invariant
            n_faces == mesh.nf(),
            f <= n_faces,
            reports(*mesh, errors@, 6, f as int, 0),
        decreases n_faces - f,
    {
        check_face_size(mesh, f, &mut errors);
        f = f + 1;
    }
    proof {
        assert forall|x: MeshError| is_violation(*mesh, x) && (#[trigger] err_pos(x)).0 == 6 implies err_pos(
            x,
        ).1 < n_faces by {
            lemma_err_pos_bounds(*mesh, x);
        }
        lemma_reports_next_stage(*mesh, errors@, 6, n_faces as int);
        assert forall|x: MeshError| #[trigger] errors@.contains(x) <==> is_violation(*mesh, x) by {
            if is_violation(*mesh, x) {
                lemma_err_pos_bounds(*mesh, x);
            }
        }
        lemma_valid_iff_no_violation(*mesh);
    }
    if errors.len() == 0 {
        proof {
            assert forall|x: MeshError| !#[trigger] is_violation(*mesh, x) by {
                if is_violation(*mesh, x) {
                    assert(errors@.contains(x));
                }
            }
        }
        Ok(())
    } else {
        proof {
            assert(errors@.contains(errors@[0]));
        }
        Err(errors)
    }
}


} // verus!
