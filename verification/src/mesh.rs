//! The mesh: arenas of vertices, edges, oriented edges and faces that refer
//! to each other by index, and the spec model of a valid closed mesh.

use vstd::prelude::*;

use crate::ids::{EdgeId, FaceId, OrientedEdgeId, VertexId};

verus! {

/// A vertex; `position` is the geometry payload.
#[derive(Clone, Copy, Debug)]
pub struct Vertex<P> {
    pub position: P,
}

/// An edge. Its canonical direction is `vertices[0]` to `vertices[1]`;
/// `oriented_edges[0]` runs forward along it, `oriented_edges[1]` backward.
#[derive(Clone, Copy, Debug)]
pub struct Edge {
    pub vertices: [VertexId; 2],
    pub oriented_edges: [OrientedEdgeId; 2],
}

/// One side of an edge, used by exactly one face loop.
#[derive(Clone, Copy, Debug)]
pub struct OrientedEdge {
    pub edge: EdgeId,
    pub forward: bool,
    pub face: FaceId,
}

/// A face: a closed loop of oriented edges, and an optional cached normal.
#[derive(Clone, Debug)]
pub struct Face<N> {
    pub oriented_edges: Vec<OrientedEdgeId>,
    pub normal: Option<N>,
}

/// A boundary representation mesh.
#[derive(Clone, Debug)]
pub struct Mesh<P, N> {
    pub vertices: Vec<Vertex<P>>,
    pub edges: Vec<Edge>,
    pub oriented_edges: Vec<OrientedEdge>,
    pub faces: Vec<Face<N>>,
}

/// Number of entries of `s` that refer to oriented edge `k`.
pub open spec fn count_in_loop(s: Seq<OrientedEdgeId>, k: int) -> nat
    decreases s.len(),
{
    if s.len() == 0 {
        0
    } else {
        count_in_loop(s.drop_last(), k) + (if s.last().0 == k {
            1nat
        } else {
            0nat
        })
    }
}

/// Number of entries of all the loops of `faces` that refer to oriented edge `k`.
pub open spec fn count_in_faces<N>(faces: Seq<Face<N>>, k: int) -> nat
    decreases faces.len(),
{
    if faces.len() == 0 {
        0
    } else {
        count_in_faces(faces.drop_last(), k) + count_in_loop(faces.last().oriented_edges@, k)
    }
}

impl<P, N> Mesh<P, N> {
    pub open spec fn nv(&self) -> int {
        self.vertices@.len() as int
    }

    pub open spec fn ne(&self) -> int {
        self.edges@.len() as int
    }

    pub open spec fn noe(&self) -> int {
        self.oriented_edges@.len() as int
    }

    pub open spec fn nf(&self) -> int {
        self.faces@.len() as int
    }

    /// The loop of face `f`.
    pub open spec fn face_loop(&self, f: int) -> Seq<OrientedEdgeId> {
        self.faces@[f].oriented_edges@
    }

    /// The edge that oriented edge `k` runs along.
    pub open spec fn edge_of(&self, k: int) -> Edge {
        self.edges@[self.oriented_edges@[k].edge.0 as int]
    }

    /// The vertex at which oriented edge `k` starts.
    pub open spec fn start_vertex(&self, k: int) -> VertexId {
        if self.oriented_edges@[k].forward {
            self.edge_of(k).vertices[0]
        } else {
            self.edge_of(k).vertices[1]
        }
    }

    /// The vertex at which oriented edge `k` ends.
    pub open spec fn end_vertex(&self, k: int) -> VertexId {
        if self.oriented_edges@[k].forward {
            self.edge_of(k).vertices[1]
        } else {
            self.edge_of(k).vertices[0]
        }
    }

    /// The other oriented edge of the edge of oriented edge `k`.
    pub open spec fn twin(&self, k: int) -> OrientedEdgeId {
        if self.oriented_edges@[k].forward {
            self.edge_of(k).oriented_edges[1]
        } else {
            self.edge_of(k).oriented_edges[0]
        }
    }

    // ---- the conditions of a valid mesh, one per check ----

    /// Slot `s` of edge `i` names an existing vertex.
    pub open spec fn edge_vertex_ok(&self, i: int, s: int) -> bool {
        self.edges@[i].vertices[s].0 < self.nv()
    }

    /// Slot `s` of edge `i` names an existing oriented edge that refers back to
    /// edge `i` with the direction of the slot.
    pub open spec fn edge_slot_ok(&self, i: int, s: int) -> bool {
        let o = self.edges@[i].oriented_edges[s];
        &&& o.0 < self.noe()
        &&& self.oriented_edges@[o.0 as int].edge.0 == i as u32
        &&& self.oriented_edges@[o.0 as int].forward == (s == 0)
    }

    /// Oriented edge `k` names an existing edge.
    pub open spec fn oe_edge_ok(&self, k: int) -> bool {
        self.oriented_edges@[k].edge.0 < self.ne()
    }

    /// Oriented edge `k` names an existing face whose loop holds it.
    pub open spec fn oe_face_ok(&self, k: int) -> bool {
        let f = self.oriented_edges@[k].face.0 as int;
        &&& f < self.nf()
        &&& self.face_loop(f).contains(OrientedEdgeId(k as u32))
    }

    /// Entry `j` of the loop of face `f` names an existing oriented edge.
    pub open spec fn loop_entry_ok(&self, f: int, j: int) -> bool {
        self.face_loop(f)[j].0 < self.noe()
    }

    /// Entry `j` of the loop of face `f` ends where the next entry starts.
    pub open spec fn loop_step_ok(&self, f: int, j: int) -> bool {
        let l = self.face_loop(f);
        self.end_vertex(l[j].0 as int) == self.start_vertex(l[(j + 1) % (l.len() as int)].0 as int)
    }

    /// The two oriented edges of edge `i` belong to different faces.
    pub open spec fn edge_manifold_ok(&self, i: int) -> bool {
        self.oriented_edges@[self.edges@[i].oriented_edges[0].0 as int].face
            != self.oriented_edges@[self.edges@[i].oriented_edges[1].0 as int].face
    }

    /// A valid closed manifold mesh: every reference is in range and consistent
    /// with its back reference, each oriented edge is used by exactly one face
    /// loop, loops are closed chains of at least three oriented edges, and the
    /// two sides of each edge belong to different faces.
    pub open spec fn is_valid(&self) -> bool {
        &&& forall|i: int, s: int|
            0 <= i < self.ne() && 0 <= s < 2 ==> #[trigger] self.edge_vertex_ok(i, s)
        &&& forall|i: int, s: int|
            0 <= i < self.ne() && 0 <= s < 2 ==> #[trigger] self.edge_slot_ok(i, s)
        &&& forall|k: int| 0 <= k < self.noe() ==> #[trigger] self.oe_edge_ok(k)
        &&& forall|k: int| 0 <= k < self.noe() ==> #[trigger] self.oe_face_ok(k)
        &&& forall|f: int, j: int|
            0 <= f < self.nf() && 0 <= j < self.face_loop(f).len() ==> #[trigger] self.loop_entry_ok(
                f,
                j,
            )
        &&& forall|k: int| 0 <= k < self.noe() ==> #[trigger] count_in_faces(self.faces@, k) == 1
        &&& forall|f: int, j: int|
            0 <= f < self.nf() && 0 <= j < self.face_loop(f).len() ==> #[trigger] self.loop_step_ok(
                f,
                j,
            )
        &&& forall|i: int| 0 <= i < self.ne() ==> #[trigger] self.edge_manifold_ok(i)
        &&& forall|f: int| 0 <= f < self.nf() ==> #[trigger] self.face_loop(f).len() >= 3
    }

    /// Oriented edge `k` occupies the slot of its edge that matches its direction.
    pub open spec fn oe_in_own_slot(&self, k: int) -> bool {
        let oe = self.oriented_edges@[k];
        self.edges@[oe.edge.0 as int].oriented_edges[if oe.forward {
            0
        } else {
            1
        }].0 == k
    }

    /// Every oriented edge occupies the slot of its edge that matches its direction.
    pub open spec fn oes_in_own_slots(&self) -> bool {
        forall|k: int| 0 <= k < self.noe() ==> #[trigger] self.oe_in_own_slot(k)
    }

    /// Every loop entry sits in the loop of the face it names, and no loop
    /// holds an oriented edge twice.
    pub open spec fn loops_partition(&self) -> bool {
        &&& forall|f: int, j: int|
            0 <= f < self.nf() && 0 <= j < self.face_loop(f).len() ==> (
            #[trigger] self.oriented_edges@[self.face_loop(f)[j].0 as int]).face.0 == f
        &&& forall|f: int, j1: int, j2: int|
            0 <= f < self.nf() && 0 <= j1 < self.face_loop(f).len() && 0 <= j2 < self.face_loop(
                f,
            ).len() && j1 != j2 ==> (#[trigger] self.face_loop(f)[j1]).0 != (
            #[trigger] self.face_loop(f)[j2]).0
    }

    /// The references met when walking the loop of face `f` are in range.
    pub open spec fn face_walkable(&self, f: int) -> bool {
        &&& 0 <= f < self.nf()
        &&& forall|j: int|
            0 <= j < self.face_loop(f).len() ==> #[trigger] self.face_loop(f)[j].0 < self.noe()
                && self.oriented_edges@[self.face_loop(f)[j].0 as int].edge.0 < self.ne()
    }

    /// Besides `face_walkable`, the twin of every oriented edge of the loop is in range.
    pub open spec fn face_twins_walkable(&self, f: int) -> bool {
        &&& self.face_walkable(f)
        &&& forall|j: int|
            0 <= j < self.face_loop(f).len() ==> (#[trigger] self.twin(self.face_loop(f)[j].0 as int)).0
                < self.noe()
    }

    /// The faces across the edges of face `fid`, in loop order.
    pub fn adjacent_faces(&self, fid: FaceId) -> (res: Vec<FaceId>)
        requires
            self.face_twins_walkable(fid.0 as int),
        ensures
            res@ == Seq::new(
                self.face_loop(fid.0 as int).len(),
                |j: int| self.oriented_edges@[self.twin(self.face_loop(fid.0 as int)[j].0 as int).0 as int].face,
            ),
    {
        let oes = &self.faces[fid.index()].oriented_edges;
        let mut res: Vec<FaceId> = Vec::new();
        let mut j: usize = 0;
        while j < oes.len()
            invariant
                self.face_twins_walkable(fid.0 as int),
                oes@ == self.face_loop(fid.0 as int),
                j <= oes.len(),
                res@ == Seq::new(
                    j as nat,
                    |t: int| self.oriented_edges@[self.twin(oes@[t].0 as int).0 as int].face,
                ),
            decreases oes.len() - j,
        {
            let oeid = oes[j];
            let oe = &self.oriented_edges[oeid.index()];
            let oes_of_edge_of_oe = &self.edges[oe.edge.index()].oriented_edges;
            // Find the twin oriented edge.
            let opposite_oeid = if oe.forward {
                oes_of_edge_of_oe[1]
            } else {
                oes_of_edge_of_oe[0]
            };
            assert(opposite_oeid == self.twin(oes@[j as int].0 as int));
            res.push(self.oriented_edges[opposite_oeid.index()].face);
            j = j + 1;
            assert(res@ =~= Seq::new(
                j as nat,
                |t: int| self.oriented_edges@[self.twin(oes@[t].0 as int).0 as int].face,
            ));
        }
        res
    }

    /// The edges of face `fid`, in loop order.
    pub fn edges_of_face(&self, fid: FaceId) -> (res: Vec<EdgeId>)
        requires
            self.face_walkable(fid.0 as int),
        ensures
            res@ == Seq::new(
                self.face_loop(fid.0 as int).len(),
                |j: int| self.oriented_edges@[self.face_loop(fid.0 as int)[j].0 as int].edge,
            ),
    {
        let oes = &self.faces[fid.index()].oriented_edges;
        let mut res: Vec<EdgeId> = Vec::new();
        let mut j: usize = 0;
        while j < oes.len()
            invariant
                self.face_walkable(fid.0 as int),
                oes@ == self.face_loop(fid.0 as int),
                j <= oes.len(),
                res@ == Seq::new(j as nat, |t: int| self.oriented_edges@[oes@[t].0 as int].edge),
            decreases oes.len() - j,
        {
            let oeid = oes[j];
            res.push(self.oriented_edges[oeid.index()].edge);
            j = j + 1;
            assert(res@ =~= Seq::new(
                j as nat,
                |t: int| self.oriented_edges@[oes@[t].0 as int].edge,
            ));
        }
        res
    }

    /// The start vertices of the oriented edges of face `fid`, in loop order.
    pub fn vertices_of_face(&self, fid: FaceId) -> (res: Vec<VertexId>)
        requires
            self.face_walkable(fid.0 as int),
        ensures
            res@ == Seq::new(
                self.face_loop(fid.0 as int).len(),
                |j: int| self.start_vertex(self.face_loop(fid.0 as int)[j].0 as int),
            ),
    {
        let oes = &self.faces[fid.index()].oriented_edges;
        let mut res: Vec<VertexId> = Vec::new();
        let mut j: usize = 0;
        while j < oes.len()
            invariant
                self.face_walkable(fid.0 as int),
                oes@ == self.face_loop(fid.0 as int),
                j <= oes.len(),
                res@ == Seq::new(j as nat, |t: int| self.start_vertex(oes@[t].0 as int)),
            decreases oes.len() - j,
        {
            let oeid = oes[j];
            let oe = &self.oriented_edges[oeid.index()];
            let edge = &self.edges[oe.edge.index()];
            // Use the first vertex.
            let vid = if oe.forward {
                edge.vertices[0]
            } else {
                edge.vertices[1]
            };
            res.push(vid);
            j = j + 1;
            assert(res@ =~= Seq::new(j as nat, |t: int| self.start_vertex(oes@[t].0 as int)));
        }
        res
    }

    /// Whether the references met when walking the loop of face `fid` are in range.
    pub fn is_face_walkable(&self, fid: FaceId) -> (res: bool)
        ensures
            res == self.face_walkable(fid.0 as int),
    {
        if fid.index() >= self.faces.len() {
            return false;
        }
        let oes = &self.faces[fid.index()].oriented_edges;
        let mut j: usize = 0;
        while j < oes.len()
            invariant
                fid.0 < self.nf(),
                oes@ == self.face_loop(fid.0 as int),
                j <= oes.len(),
                forall|t: int|
                    0 <= t < j ==> #[trigger] oes@[t].0 < self.noe()
                        && self.oriented_edges@[oes@[t].0 as int].edge.0 < self.ne(),
            decreases oes.len() - j,
        {
            let k = oes[j].index();
            if k >= self.oriented_edges.len() || self.oriented_edges[k].edge.index() >= self.edges.len() {
                assert(!(oes@[j as int].0 < self.noe() && self.oriented_edges@[oes@[j as int].0 as int].edge.0
                    < self.ne()));
                return false;
            }
            j = j + 1;
        }
        true
    }

    /// Whether, besides the loop of face `fid`, the twins of its oriented edges are in range.
    pub fn is_face_twins_walkable(&self, fid: FaceId) -> (res: bool)
        ensures
            res == self.face_twins_walkable(fid.0 as int),
    {
        if !self.is_face_walkable(fid) {
            return false;
        }
        let oes = &self.faces[fid.index()].oriented_edges;
        let mut j: usize = 0;
        while j < oes.len()
            invariant
                self.face_walkable(fid.0 as int),
                oes@ == self.face_loop(fid.0 as int),
                j <= oes.len(),
                forall|t: int| 0 <= t < j ==> (#[trigger] self.twin(oes@[t].0 as int)).0 < self.noe(),
            decreases oes.len() - j,
        {
            let oe = &self.oriented_edges[oes[j].index()];
            let slots = &self.edges[oe.edge.index()].oriented_edges;
            let twin = if oe.forward {
                slots[1]
            } else {
                slots[0]
            };
            assert(twin == self.twin(oes@[j as int].0 as int));
            if twin.index() >= self.oriented_edges.len() {
                return false;
            }
            j = j + 1;
        }
        true
    }

    /// Whether every oriented edge names an edge in range and occupies the
    /// slot of that edge that matches its direction.
    pub fn has_oes_in_own_slots(&self) -> (res: bool)
        ensures
            res == (forall|k: int|
                0 <= k < self.noe() ==> #[trigger] self.oriented_edges@[k].edge.0 < self.ne()
                    && self.oe_in_own_slot(k)),
            res ==> self.oes_in_own_slots(),
    {
        let mut k: usize = 0;
        while k < self.oriented_edges.len()
            invariant
                k <= self.noe(),
                forall|t: int| 0 <= t < k ==> #[trigger] self.oe_in_own_slot(t),
                forall|t: int| 0 <= t < k ==> #[trigger] self.oriented_edges@[t].edge.0 < self.ne(),
            decreases self.noe() - k,
        {
            let oe = &self.oriented_edges[k];
            if oe.edge.index() >= self.edges.len() {
                assert(!(self.oriented_edges@[k as int].edge.0 < self.ne()));
                return false;
            }
            let slot = if oe.forward {
                self.edges[oe.edge.index()].oriented_edges[0]
            } else {
                self.edges[oe.edge.index()].oriented_edges[1]
            };
            if slot.index() != k {
                assert(!self.oe_in_own_slot(k as int));
                return false;
            }
            k = k + 1;
        }
        true
    }

}

} // verus!
