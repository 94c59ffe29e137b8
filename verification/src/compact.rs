//! Validity of a mesh in which some elements are dead (no live element refers
//! to them), and the removal of dead elements by swapping in the last one.

use vstd::prelude::*;

use crate::counting::lemma_partition_gives_counts;
use crate::ids::{EdgeId, FaceId, OrientedEdgeId};
use crate::mesh::{Edge, Mesh};

verus! {

pub open spec fn live_oe<P, N>(m: Mesh<P, N>, dro: Set<int>, k: int) -> bool {
    0 <= k < m.noe() && !dro.contains(k)
}

pub open spec fn live_edge<P, N>(m: Mesh<P, N>, dre: Set<int>, i: int) -> bool {
    0 <= i < m.ne() && !dre.contains(i)
}

pub open spec fn live_face<P, N>(m: Mesh<P, N>, drf: Set<int>, f: int) -> bool {
    0 <= f < m.nf() && !drf.contains(f)
}

/// The live part of `m` is a valid mesh whose oriented edges occupy their
/// edges' slots, and live elements refer only to live elements. The dead
/// oriented edges, edges and faces are `dro`, `dre` and `drf`.
pub open spec fn valid_live<P, N>(m: Mesh<P, N>, dro: Set<int>, dre: Set<int>, drf: Set<int>) -> bool {
    &&& m.nv() <= u32::MAX
    &&& m.ne() < u32::MAX
    &&& m.noe() < u32::MAX
    &&& m.nf() < u32::MAX
    &&& forall|i: int, s: int|
        live_edge(m, dre, i) && 0 <= s < 2 ==> #[trigger] m.edge_vertex_ok(i, s)
    &&& forall|i: int, s: int|
        live_edge(m, dre, i) && 0 <= s < 2 ==> #[trigger] m.edge_slot_ok(i, s) && !dro.contains(
            m.edges@[i].oriented_edges[s].0 as int,
        )
    &&& forall|k: int|
        live_oe(m, dro, k) ==> #[trigger] m.oe_edge_ok(k) && !dre.contains(
            m.oriented_edges@[k].edge.0 as int,
        ) && m.oe_in_own_slot(k)
    &&& forall|k: int|
        live_oe(m, dro, k) ==> #[trigger] m.oe_face_ok(k) && !drf.contains(
            m.oriented_edges@[k].face.0 as int,
        )
    &&& forall|f: int, j: int|
        live_face(m, drf, f) && 0 <= j < m.face_loop(f).len() ==> #[trigger] m.loop_entry_ok(f, j)
            && !dro.contains(m.face_loop(f)[j].0 as int) && m.oriented_edges@[m.face_loop(
            f,
        )[j].0 as int].face.0 == f
    &&& forall|f: int, j1: int, j2: int|
        live_face(m, drf, f) && 0 <= j1 < m.face_loop(f).len() && 0 <= j2 < m.face_loop(f).len()
            && j1 != j2 ==> (#[trigger] m.face_loop(f)[j1]).0 != (#[trigger] m.face_loop(f)[j2]).0
    &&& forall|f: int, j: int|
        live_face(m, drf, f) && 0 <= j < m.face_loop(f).len() ==> #[trigger] m.loop_step_ok(f, j)
    &&& forall|i: int| live_edge(m, dre, i) ==> #[trigger] m.edge_manifold_ok(i)
    &&& forall|f: int| live_face(m, drf, f) ==> #[trigger] m.face_loop(f).len() >= 3
}

/// With nothing dead, the live validity is validity.
pub proof fn lemma_valid_live_gives_valid<P, N>(m: Mesh<P, N>)
    requires
        valid_live(m, Set::empty(), Set::empty(), Set::empty()),
    ensures
        m.is_valid(),
        m.oes_in_own_slots(),
{
    let e = Set::<int>::empty();
    assert forall|k: int| 0 <= k < m.noe() implies #[trigger] m.oe_face_ok(k) by {
        assert(live_oe(m, e, k));
    }
    assert forall|f: int, j: int| 0 <= f < m.nf() && 0 <= j < m.face_loop(f).len() implies (
    #[trigger] m.oriented_edges@[m.face_loop(f)[j].0 as int]).face.0 == f by {
        assert(live_face(m, e, f));
        assert(m.loop_entry_ok(f, j));
    }
    assert forall|f: int, j1: int, j2: int|
        0 <= f < m.nf() && 0 <= j1 < m.face_loop(f).len() && 0 <= j2 < m.face_loop(f).len() && j1
            != j2 implies (#[trigger] m.face_loop(f)[j1]).0 != (#[trigger] m.face_loop(f)[j2]).0 by {
        assert(live_face(m, e, f));
    }
    lemma_partition_gives_counts(m);
    assert forall|i: int, s: int| 0 <= i < m.ne() && 0 <= s < 2 implies #[trigger] m.edge_vertex_ok(
        i,
        s,
    ) by {
        assert(live_edge(m, e, i));
    }
    assert forall|i: int, s: int| 0 <= i < m.ne() && 0 <= s < 2 implies #[trigger] m.edge_slot_ok(
        i,
        s,
    ) by {
        assert(live_edge(m, e, i));
    }
    assert forall|k: int| 0 <= k < m.noe() implies #[trigger] m.oe_edge_ok(k) by {
        assert(live_oe(m, e, k));
    }
    assert forall|k: int| 0 <= k < m.noe() implies #[trigger] m.oe_in_own_slot(k) by {
        assert(live_oe(m, e, k));
        assert(m.oe_edge_ok(k));
    }
    assert forall|f: int, j: int| 0 <= f < m.nf() && 0 <= j < m.face_loop(f).len() implies #[trigger] m.loop_entry_ok(
        f,
        j,
    ) by {
        assert(live_face(m, e, f));
    }
    assert forall|f: int, j: int| 0 <= f < m.nf() && 0 <= j < m.face_loop(f).len() implies #[trigger] m.loop_step_ok(
        f,
        j,
    ) by {
        assert(live_face(m, e, f));
    }
    assert forall|i: int| 0 <= i < m.ne() implies #[trigger] m.edge_manifold_ok(i) by {
        assert(live_edge(m, e, i));
    }
    assert forall|f: int| 0 <= f < m.nf() implies #[trigger] m.face_loop(f).len() >= 3 by {
        assert(live_face(m, e, f));
    }
}

/// Dropping the last face of a live-valid mesh, when that face is dead,
/// keeps the rest live-valid.
proof fn lemma_drop_dead_last_face<P, N>(
    m: Mesh<P, N>,
    m2: Mesh<P, N>,
    dro: Set<int>,
    dre: Set<int>,
    drf: Set<int>,
)
    requires
        valid_live(m, dro, dre, drf),
        m.nf() > 0,
        drf.contains(m.nf() - 1),
        m2.vertices@ == m.vertices@,
        m2.edges@ == m.edges@,
        m2.oriented_edges@ == m.oriented_edges@,
        m2.faces@ == m.faces@.drop_last(),
    ensures
        valid_live(m2, dro, dre, drf.remove(m.nf() - 1)),
{
    let d = m.nf() - 1;
    let drf2 = drf.remove(d);
    assert forall|f: int| 0 <= f < m2.nf() implies #[trigger] m2.faces@[f] == m.faces@[f] by {}
    assert forall|i: int, s: int| live_edge(m2, dre, i) && 0 <= s < 2 implies #[trigger] m2.edge_vertex_ok(
        i,
        s,
    ) by {
        assert(live_edge(m, dre, i));
        assert(m.edge_vertex_ok(i, s));
    }
    assert forall|i: int, s: int| live_edge(m2, dre, i) && 0 <= s < 2 implies #[trigger] m2.edge_slot_ok(
        i,
        s,
    ) && !dro.contains(m2.edges@[i].oriented_edges[s].0 as int) by {
        assert(live_edge(m, dre, i));
        assert(m.edge_slot_ok(i, s));
    }
    assert forall|k: int| live_oe(m2, dro, k) implies #[trigger] m2.oe_edge_ok(k) && !dre.contains(
        m2.oriented_edges@[k].edge.0 as int,
    ) && m2.oe_in_own_slot(k) by {
        assert(live_oe(m, dro, k));
        assert(m.oe_edge_ok(k));
    }
    assert forall|k: int| live_oe(m2, dro, k) implies #[trigger] m2.oe_face_ok(k) && !drf2.contains(
        m2.oriented_edges@[k].face.0 as int,
    ) by {
        assert(live_oe(m, dro, k));
        assert(m.oe_face_ok(k));
        let g = m.oriented_edges@[k].face.0 as int;
        assert(m2.face_loop(g) == m.face_loop(g));
    }
    assert forall|f: int, j: int| live_face(m2, drf2, f) && 0 <= j < m2.face_loop(f).len() implies #[trigger] m2.loop_entry_ok(
        f,
        j,
    ) && !dro.contains(m2.face_loop(f)[j].0 as int) && m2.oriented_edges@[m2.face_loop(
        f,
    )[j].0 as int].face.0 == f by {
        assert(live_face(m, drf, f));
        assert(m2.face_loop(f) == m.face_loop(f));
        assert(m.loop_entry_ok(f, j));
    }
    assert forall|f: int, j1: int, j2: int|
        live_face(m2, drf2, f) && 0 <= j1 < m2.face_loop(f).len() && 0 <= j2 < m2.face_loop(
            f,
        ).len() && j1 != j2 implies (#[trigger] m2.face_loop(f)[j1]).0 != (
    #[trigger] m2.face_loop(f)[j2]).0 by {
        assert(live_face(m, drf, f));
        assert(m2.face_loop(f) == m.face_loop(f));
        assert(m.face_loop(f)[j1].0 != m.face_loop(f)[j2].0);
    }
    assert forall|f: int, j: int| live_face(m2, drf2, f) && 0 <= j < m2.face_loop(f).len() implies #[trigger] m2.loop_step_ok(
        f,
        j,
    ) by {
        assert(live_face(m, drf, f));
        assert(m2.face_loop(f) == m.face_loop(f));
        assert(m.loop_step_ok(f, j));
    }
    assert forall|i: int| live_edge(m2, dre, i) implies #[trigger] m2.edge_manifold_ok(i) by {
        assert(live_edge(m, dre, i));
        assert(m.edge_manifold_ok(i));
    }
    assert forall|f: int| live_face(m2, drf2, f) implies #[trigger] m2.face_loop(f).len() >= 3 by {
        assert(live_face(m, drf, f));
        assert(m2.face_loop(f) == m.face_loop(f));
    }
    assert(m2.nv() <= u32::MAX && m2.ne() < u32::MAX && m2.noe() < u32::MAX && m2.nf() < u32::MAX);
    assert(valid_live(m2, dro, dre, drf2));
}

/// Removes dead face `fid`, the largest dead face, by moving the last face
/// into its slot and pointing that face's oriented edges at the new index.
#[verifier::spinoff_prover]
#[verifier::rlimit(80)]
pub(crate) fn remove_dead_face<P, N>(
    mesh: &mut Mesh<P, N>,
    fid: FaceId,
    Ghost(dro): Ghost<Set<int>>,
    Ghost(dre): Ghost<Set<int>>,
    Ghost(drf): Ghost<Set<int>>,
)
    requires
        valid_live(*old(mesh), dro, dre, drf),
        drf.contains(fid.0 as int),
        forall|x: int| drf.contains(x) ==> 0 <= x <= fid.0,
        fid.0 < old(mesh).nf(),
    ensures
        valid_live(*final(mesh), dro, dre, drf.remove(fid.0 as int)),
        final(mesh).vertices@ == old(mesh).vertices@,
        final(mesh).edges@ == old(mesh).edges@,
        final(mesh).noe() == old(mesh).noe(),
        final(mesh).nf() == old(mesh).nf() - 1,
        forall|k: int|
            0 <= k < final(mesh).noe() ==> (#[trigger] final(mesh).oriented_edges@[k]).edge
                == old(mesh).oriented_edges@[k].edge && final(mesh).oriented_edges@[k].forward
                == old(mesh).oriented_edges@[k].forward,
        forall|k: int|
            0 <= k < final(mesh).noe() ==> (#[trigger] final(mesh).oriented_edges@[k]).face
                == old(mesh).oriented_edges@[k].face || (final(mesh).oriented_edges@[k].face == fid
                && old(mesh).oriented_edges@[k].face.0 == old(mesh).nf() - 1),
        forall|f: int| 0 <= f < fid.0 ==> #[trigger] final(mesh).faces@[f] == old(mesh).faces@[f],
        forall|f: int|
            0 <= f < final(mesh).nf() ==> #[trigger] final(mesh).faces@[f] == (if f == fid.0 {
                old(mesh).faces@[old(mesh).nf() - 1]
            } else {
                old(mesh).faces@[f]
            }),
{
    let ghost m = *mesh;
    let ghost d = fid.0 as int;
    let ghost last = m.nf() - 1;
    let ghost drf2 = drf.remove(d);
    mesh.faces.swap_remove(fid.index());
    // swap_remove reassigns index `mesh.faces.len() - 1` to fid
    // It's referenced in its oriented edges, update those.
    if fid.index() != mesh.faces.len() {
        let n = mesh.faces[fid.index()].oriented_edges.len();
        assert(live_face(m, drf, last));
        assert(mesh.face_loop(d) == m.face_loop(last));
        let mut j: usize = 0;
        while j < n
            invariant
                valid_live(m, dro, dre, drf),
                live_face(m, drf, last),
                d < last,
                last == m.nf() - 1,
                mesh.faces@ == m.faces@.update(d, m.faces@[last]).drop_last(),
                mesh.vertices@ == m.vertices@,
                mesh.edges@ == m.edges@,
                mesh.noe() == m.noe(),
                n == m.face_loop(last).len(),
                0 <= j <= n,
                fid.0 == d,
                forall|k: int|
                    0 <= k < m.noe() ==> (#[trigger] mesh.oriented_edges@[k]).edge
                        == m.oriented_edges@[k].edge && mesh.oriented_edges@[k].forward
                        == m.oriented_edges@[k].forward && (mesh.oriented_edges@[k].face
                        == m.oriented_edges@[k].face || (mesh.oriented_edges@[k].face == fid
                        && m.oriented_edges@[k].face.0 == last)),
                forall|t: int|
                    0 <= t < j ==> mesh.oriented_edges@[(#[trigger] m.face_loop(last)[t]).0 as int].face
                        == fid,
            decreases n - j,
        {
            let oeid = mesh.faces[fid.index()].oriented_edges[j];
            assert(oeid == m.face_loop(last)[j as int]);
            assert(m.loop_entry_ok(last, j as int));
            let mut oe = mesh.oriented_edges[oeid.index()];
            oe.face = fid;
            mesh.oriented_edges.set(oeid.index(), oe);
            assert forall|t: int| 0 <= t < j + 1 implies mesh.oriented_edges@[(
            #[trigger] m.face_loop(last)[t]).0 as int].face == fid by {
                assert(m.loop_entry_ok(last, t));
            }
            j = j + 1;
        }
        let ghost m2 = *mesh;
        assert forall|k: int| live_oe(m2, dro, k) implies m2.oriented_edges@[k].face.0 == (if m.oriented_edges@[k].face.0
            == last {
            d
        } else {
            m.oriented_edges@[k].face.0 as int
        }) by {
            assert(live_oe(m, dro, k));
            assert(m.oe_face_ok(k));
            if m.oriented_edges@[k].face.0 == last {
                let l = m.face_loop(last);
                let t = choose|t: int| 0 <= t < l.len() && l[t] == OrientedEdgeId(k as u32);
                assert(m.face_loop(last)[t].0 == k);
            }
        }
        assert forall|i: int, s: int| live_edge(m2, dre, i) && 0 <= s < 2 implies #[trigger] m2.edge_vertex_ok(
            i,
            s,
        ) by {
            assert(live_edge(m, dre, i));
            assert(m.edge_vertex_ok(i, s));
        }
        assert forall|i: int, s: int| live_edge(m2, dre, i) && 0 <= s < 2 implies #[trigger] m2.edge_slot_ok(
            i,
            s,
        ) && !dro.contains(m2.edges@[i].oriented_edges[s].0 as int) by {
            assert(live_edge(m, dre, i));
            assert(m.edge_slot_ok(i, s));
        }
        assert forall|k: int| live_oe(m2, dro, k) implies #[trigger] m2.oe_edge_ok(k) && !dre.contains(
            m2.oriented_edges@[k].edge.0 as int,
        ) && m2.oe_in_own_slot(k) by {
            assert(live_oe(m, dro, k));
            assert(m.oe_edge_ok(k));
        }
        assert forall|k: int| live_oe(m2, dro, k) implies #[trigger] m2.oe_face_ok(k) && !drf2.contains(
            m2.oriented_edges@[k].face.0 as int,
        ) by {
            assert(live_oe(m, dro, k));
            assert(m.oe_face_ok(k));
            let g = m.oriented_edges@[k].face.0 as int;
            if g == last {
                assert(m2.face_loop(d) == m.face_loop(last));
            } else {
                assert(m2.face_loop(g) == m.face_loop(g));
            }
        }
        assert forall|f: int, j: int| live_face(m2, drf2, f) && 0 <= j < m2.face_loop(f).len() implies #[trigger] m2.loop_entry_ok(
            f,
            j,
        ) && !dro.contains(m2.face_loop(f)[j].0 as int) && m2.oriented_edges@[m2.face_loop(
            f,
        )[j].0 as int].face.0 == f by {
            if f == d {
                assert(m2.face_loop(f) == m.face_loop(last));
                assert(m.loop_entry_ok(last, j));
                assert(live_oe(m, dro, m.face_loop(last)[j].0 as int));
            } else {
                assert(live_face(m, drf, f));
                assert(m2.face_loop(f) == m.face_loop(f));
                assert(m.loop_entry_ok(f, j));
                assert(live_oe(m, dro, m.face_loop(f)[j].0 as int));
            }
        }
        assert forall|f: int, j1: int, j2: int|
            live_face(m2, drf2, f) && 0 <= j1 < m2.face_loop(f).len() && 0 <= j2 < m2.face_loop(
                f,
            ).len() && j1 != j2 implies (#[trigger] m2.face_loop(f)[j1]).0 != (
        #[trigger] m2.face_loop(f)[j2]).0 by {
            if f == d {
                assert(m2.face_loop(f) == m.face_loop(last));
                assert(m.face_loop(last)[j1].0 != m.face_loop(last)[j2].0);
            } else {
                assert(live_face(m, drf, f));
                assert(m2.face_loop(f) == m.face_loop(f));
                assert(m.face_loop(f)[j1].0 != m.face_loop(f)[j2].0);
            }
        }
        assert forall|f: int, j: int| live_face(m2, drf2, f) && 0 <= j < m2.face_loop(f).len() implies #[trigger] m2.loop_step_ok(
            f,
            j,
        ) by {
            let g = if f == d {
                last
            } else {
                f
            };
            assert(live_face(m, drf, g));
            assert(m2.face_loop(f) == m.face_loop(g));
            assert(m.loop_step_ok(g, j));
            let l = m.face_loop(g);
            let j2 = (j + 1) % (l.len() as int);
            assert(m.loop_entry_ok(g, j));
            assert(m.loop_entry_ok(g, j2));
        }
        assert forall|i: int| live_edge(m2, dre, i) implies #[trigger] m2.edge_manifold_ok(i) by {
            assert(live_edge(m, dre, i));
            assert(m.edge_manifold_ok(i));
            assert(m.edge_slot_ok(i, 0));
            assert(m.edge_slot_ok(i, 1));
            let o0 = m.edges@[i].oriented_edges[0].0 as int;
            let o1 = m.edges@[i].oriented_edges[1].0 as int;
            assert(live_oe(m2, dro, o0));
            assert(live_oe(m2, dro, o1));
            assert(m.oe_face_ok(o0));
            assert(m.oe_face_ok(o1));
        }
        assert forall|f: int| live_face(m2, drf2, f) implies #[trigger] m2.face_loop(f).len() >= 3 by {
            if f == d {
                assert(m2.face_loop(f) == m.face_loop(last));
            } else {
                assert(live_face(m, drf, f));
                assert(m2.face_loop(f) == m.face_loop(f));
            }
        }
        assert(valid_live(m2, dro, dre, drf2));
    } else {
        proof {
            assert(mesh.faces@ =~= m.faces@.drop_last());
            lemma_drop_dead_last_face(m, *mesh, dro, dre, drf);
        }
    }
}

/// Removes dead edge `eid`, the largest dead edge, by moving the last edge
/// into its slot and pointing that edge's two oriented edges at the new index.
#[verifier::spinoff_prover]
#[verifier::rlimit(40)]
pub(crate) fn remove_dead_edge<P, N>(
    mesh: &mut Mesh<P, N>,
    eid: EdgeId,
    Ghost(dro): Ghost<Set<int>>,
    Ghost(dre): Ghost<Set<int>>,
    Ghost(drf): Ghost<Set<int>>,
)
    requires
        valid_live(*old(mesh), dro, dre, drf),
        dre.contains(eid.0 as int),
        forall|x: int| dre.contains(x) ==> 0 <= x <= eid.0,
        eid.0 < old(mesh).ne(),
    ensures
        valid_live(*final(mesh), dro, dre.remove(eid.0 as int), drf),
        final(mesh).vertices@ == old(mesh).vertices@,
        final(mesh).faces@ == old(mesh).faces@,
        final(mesh).noe() == old(mesh).noe(),
        final(mesh).ne() == old(mesh).ne() - 1,
        forall|k: int|
            0 <= k < final(mesh).noe() ==> (#[trigger] final(mesh).oriented_edges@[k]).edge
                == old(mesh).oriented_edges@[k].edge || (final(mesh).oriented_edges@[k].edge == eid
                && old(mesh).oriented_edges@[k].edge.0 == old(mesh).ne() - 1),
        forall|k: int|
            0 <= k < final(mesh).noe() ==> (#[trigger] final(mesh).oriented_edges@[k]).face
                == old(mesh).oriented_edges@[k].face && final(mesh).oriented_edges@[k].forward
                == old(mesh).oriented_edges@[k].forward,
        forall|k: int|
            live_oe(*old(mesh), dro, k) ==> #[trigger] final(mesh).start_vertex(k) == old(mesh).start_vertex(k) && final(mesh).end_vertex(k) == old(mesh).end_vertex(k),
{
    let ghost m = *mesh;
    let ghost d = eid.0 as int;
    let ghost last = m.ne() - 1;
    let ghost dre2 = dre.remove(d);
    mesh.edges.swap_remove(eid.index());
    // swap_remove reassigns index `mesh.edges.len() - 1` to eid
    // It's referenced in its oriented edges, update those.
    if eid.index() != mesh.edges.len() {
        assert(live_edge(m, dre, last));
        assert(m.edge_slot_ok(last, 0));
        assert(m.edge_slot_ok(last, 1));
        let o0 = mesh.edges[eid.index()].oriented_edges[0];
        let o1 = mesh.edges[eid.index()].oriented_edges[1];
        let mut oe0 = mesh.oriented_edges[o0.index()];
        oe0.edge = eid;
        mesh.oriented_edges.set(o0.index(), oe0);
        let mut oe1 = mesh.oriented_edges[o1.index()];
        oe1.edge = eid;
        mesh.oriented_edges.set(o1.index(), oe1);
        let ghost m2 = *mesh;
        assert(o0.0 != o1.0);
        assert forall|k: int| live_oe(m2, dro, k) implies m2.oriented_edges@[k].edge.0 == (if m.oriented_edges@[k].edge.0
            == last {
            d
        } else {
            m.oriented_edges@[k].edge.0 as int
        }) && m2.edge_of(k) == m.edge_of(k) by {
            assert(live_oe(m, dro, k));
            assert(m.oe_edge_ok(k));
            if m.oriented_edges@[k].edge.0 == last {
                assert(m.oe_in_own_slot(k));
            }
        }
        assert forall|k: int| live_oe(m, dro, k) implies #[trigger] m2.start_vertex(k) == m.start_vertex(
            k,
        ) && m2.end_vertex(k) == m.end_vertex(k) by {
            assert(live_oe(m2, dro, k));
        }
        assert forall|i: int, s: int| live_edge(m2, dre2, i) && 0 <= s < 2 implies #[trigger] m2.edge_vertex_ok(
            i,
            s,
        ) by {
            let j = if i == d {
                last
            } else {
                i
            };
            assert(live_edge(m, dre, j));
            assert(m.edge_vertex_ok(j, s));
        }
        assert forall|i: int, s: int| live_edge(m2, dre2, i) && 0 <= s < 2 implies #[trigger] m2.edge_slot_ok(
            i,
            s,
        ) && !dro.contains(m2.edges@[i].oriented_edges[s].0 as int) by {
            let j = if i == d {
                last
            } else {
                i
            };
            assert(live_edge(m, dre, j));
            assert(m.edge_slot_ok(j, s));
            let o = m.edges@[j].oriented_edges[s].0 as int;
            assert(live_oe(m2, dro, o));
        }
        assert forall|k: int| live_oe(m2, dro, k) implies #[trigger] m2.oe_edge_ok(k) && !dre2.contains(
            m2.oriented_edges@[k].edge.0 as int,
        ) && m2.oe_in_own_slot(k) by {
            assert(live_oe(m, dro, k));
            assert(m.oe_edge_ok(k));
            assert(m.oe_in_own_slot(k));
        }
        assert forall|k: int| live_oe(m2, dro, k) implies #[trigger] m2.oe_face_ok(k) && !drf.contains(
            m2.oriented_edges@[k].face.0 as int,
        ) by {
            assert(live_oe(m, dro, k));
            assert(m.oe_face_ok(k));
        }
        assert forall|f: int, j: int| live_face(m2, drf, f) && 0 <= j < m2.face_loop(f).len() implies #[trigger] m2.loop_entry_ok(
            f,
            j,
        ) && !dro.contains(m2.face_loop(f)[j].0 as int) && m2.oriented_edges@[m2.face_loop(
            f,
        )[j].0 as int].face.0 == f by {
            assert(live_face(m, drf, f));
            assert(m.loop_entry_ok(f, j));
        }
        assert forall|f: int, j1: int, j2: int|
            live_face(m2, drf, f) && 0 <= j1 < m2.face_loop(f).len() && 0 <= j2 < m2.face_loop(
                f,
            ).len() && j1 != j2 implies (#[trigger] m2.face_loop(f)[j1]).0 != (
        #[trigger] m2.face_loop(f)[j2]).0 by {
            assert(live_face(m, drf, f));
            assert(m.face_loop(f)[j1].0 != m.face_loop(f)[j2].0);
        }
        assert forall|f: int, j: int| live_face(m2, drf, f) && 0 <= j < m2.face_loop(f).len() implies #[trigger] m2.loop_step_ok(
            f,
            j,
        ) by {
            assert(live_face(m, drf, f));
            assert(m.loop_step_ok(f, j));
            let l = m.face_loop(f);
            let j2 = (j + 1) % (l.len() as int);
            assert(m.loop_entry_ok(f, j));
            assert(m.loop_entry_ok(f, j2));
            assert(live_oe(m2, dro, l[j].0 as int));
            assert(live_oe(m2, dro, l[j2].0 as int));
        }
        assert forall|i: int| live_edge(m2, dre2, i) implies #[trigger] m2.edge_manifold_ok(i) by {
            let j = if i == d {
                last
            } else {
                i
            };
            assert(live_edge(m, dre, j));
            assert(m.edge_manifold_ok(j));
            assert(m.edge_slot_ok(j, 0));
            assert(m.edge_slot_ok(j, 1));
            assert(m2.edges@[i] == m.edges@[j]);
            let p0 = m.edges@[j].oriented_edges[0].0 as int;
            let p1 = m.edges@[j].oriented_edges[1].0 as int;
            assert(m2.oriented_edges@[p0].face == m.oriented_edges@[p0].face);
            assert(m2.oriented_edges@[p1].face == m.oriented_edges@[p1].face);
        }
        assert forall|f: int| live_face(m2, drf, f) implies #[trigger] m2.face_loop(f).len() >= 3 by {
            assert(live_face(m, drf, f));
            assert(m2.face_loop(f) == m.face_loop(f));
        }
        assert(valid_live(m2, dro, dre2, drf));
    } else {
        let ghost m2 = *mesh;
        assert forall|k: int| live_oe(m2, dro, k) implies m2.edge_of(k) == m.edge_of(k) by {
            assert(live_oe(m, dro, k));
            assert(m.oe_edge_ok(k));
        }
        assert forall|k: int| live_oe(m, dro, k) implies #[trigger] m2.start_vertex(k) == m.start_vertex(
            k,
        ) && m2.end_vertex(k) == m.end_vertex(k) by {
            assert(live_oe(m2, dro, k));
        }
        assert forall|i: int, s: int| live_edge(m2, dre2, i) && 0 <= s < 2 implies #[trigger] m2.edge_vertex_ok(
            i,
            s,
        ) by {
            assert(live_edge(m, dre, i));
            assert(m.edge_vertex_ok(i, s));
        }
        assert forall|i: int, s: int| live_edge(m2, dre2, i) && 0 <= s < 2 implies #[trigger] m2.edge_slot_ok(
            i,
            s,
        ) && !dro.contains(m2.edges@[i].oriented_edges[s].0 as int) by {
            assert(live_edge(m, dre, i));
            assert(m.edge_slot_ok(i, s));
        }
        assert forall|k: int| live_oe(m2, dro, k) implies #[trigger] m2.oe_edge_ok(k) && !dre2.contains(
            m2.oriented_edges@[k].edge.0 as int,
        ) && m2.oe_in_own_slot(k) by {
            assert(live_oe(m, dro, k));
            assert(m.oe_edge_ok(k));
            assert(m.oe_in_own_slot(k));
        }
        assert forall|k: int| live_oe(m2, dro, k) implies #[trigger] m2.oe_face_ok(k) && !drf.contains(
            m2.oriented_edges@[k].face.0 as int,
        ) by {
            assert(live_oe(m, dro, k));
            assert(m.oe_face_ok(k));
        }
        assert forall|f: int, j: int| live_face(m2, drf, f) && 0 <= j < m2.face_loop(f).len() implies #[trigger] m2.loop_entry_ok(
            f,
            j,
        ) && !dro.contains(m2.face_loop(f)[j].0 as int) && m2.oriented_edges@[m2.face_loop(
            f,
        )[j].0 as int].face.0 == f by {
            assert(live_face(m, drf, f));
            assert(m.loop_entry_ok(f, j));
        }
        assert forall|f: int, j1: int, j2: int|
            live_face(m2, drf, f) && 0 <= j1 < m2.face_loop(f).len() && 0 <= j2 < m2.face_loop(
                f,
            ).len() && j1 != j2 implies (#[trigger] m2.face_loop(f)[j1]).0 != (
        #[trigger] m2.face_loop(f)[j2]).0 by {
            assert(live_face(m, drf, f));
            assert(m.face_loop(f)[j1].0 != m.face_loop(f)[j2].0);
        }
        assert forall|f: int, j: int| live_face(m2, drf, f) && 0 <= j < m2.face_loop(f).len() implies #[trigger] m2.loop_step_ok(
            f,
            j,
        ) by {
            assert(live_face(m, drf, f));
            assert(m.loop_step_ok(f, j));
            let l = m.face_loop(f);
            let j2 = (j + 1) % (l.len() as int);
            assert(m.loop_entry_ok(f, j));
            assert(m.loop_entry_ok(f, j2));
            assert(live_oe(m2, dro, l[j].0 as int));
            assert(live_oe(m2, dro, l[j2].0 as int));
        }
        assert forall|i: int| live_edge(m2, dre2, i) implies #[trigger] m2.edge_manifold_ok(i) by {
            assert(live_edge(m, dre, i));
            assert(m.edge_manifold_ok(i));
        }
        assert forall|f: int| live_face(m2, drf, f) implies #[trigger] m2.face_loop(f).len() >= 3 by {
            assert(live_face(m, drf, f));
            assert(m2.face_loop(f) == m.face_loop(f));
        }
        assert(valid_live(m2, dro, dre2, drf));
    }
}

/// The first position of `x` in `v`.
pub fn position_of(v: &Vec<OrientedEdgeId>, x: OrientedEdgeId) -> (res: Option<usize>)
    ensures
        match res {
            Some(i) => i < v@.len() && v@[i as int] == x && forall|j: int|
                0 <= j < i ==> v@[j] != x,
            None => !v@.contains(x),
        },
{
    let mut i: usize = 0;
    while i < v.len()
        invariant
            i <= v@.len(),
            forall|j: int| 0 <= j < i ==> v@[j] != x,
        decreases v@.len() - i,
    {
        if v[i] == x {
            return Some(i);
        }
        i = i + 1;
    }
    None
}

/// Removes dead oriented edge `oeid`, the largest dead oriented edge, by
/// moving the last oriented edge into its slot and renaming it in its edge
/// and in the loop of its face.
#[verifier::spinoff_prover]
#[verifier::rlimit(60)]
pub(crate) fn remove_dead_oriented_edge<P, N>(
    mesh: &mut Mesh<P, N>,
    oeid: OrientedEdgeId,
    Ghost(dro): Ghost<Set<int>>,
    Ghost(dre): Ghost<Set<int>>,
    Ghost(drf): Ghost<Set<int>>,
)
    requires
        valid_live(*old(mesh), dro, dre, drf),
        dro.contains(oeid.0 as int),
        forall|x: int| dro.contains(x) ==> 0 <= x <= oeid.0,
        oeid.0 < old(mesh).noe(),
    ensures
        valid_live(*final(mesh), dro.remove(oeid.0 as int), dre, drf),
        final(mesh).vertices@ == old(mesh).vertices@,
        final(mesh).ne() == old(mesh).ne(),
        final(mesh).nf() == old(mesh).nf(),
        final(mesh).noe() == old(mesh).noe() - 1,
        forall|i: int|
            0 <= i < final(mesh).ne() ==> (#[trigger] final(mesh).edges@[i]).vertices == old(mesh).edges@[i].vertices,
        forall|k: int|
            0 <= k < final(mesh).noe() && k != oeid.0 ==> #[trigger] final(mesh).oriented_edges@[k]
                == old(mesh).oriented_edges@[k],
        oeid.0 < final(mesh).noe() ==> final(mesh).oriented_edges@[oeid.0 as int] == old(
            mesh,
        ).oriented_edges@[old(mesh).noe() - 1],
        forall|f: int|
            0 <= f < final(mesh).nf() ==> (#[trigger] final(mesh).faces@[f]).oriented_edges@.len()
                == old(mesh).faces@[f].oriented_edges@.len() && final(mesh).faces@[f].normal == old(
                mesh,
            ).faces@[f].normal,
        forall|f: int, j: int|
            0 <= f < final(mesh).nf() && !drf.contains(f) && 0 <= j < final(mesh).face_loop(f).len()
                ==> #[trigger] final(mesh).face_loop(f)[j] == (if old(mesh).face_loop(f)[j].0 == final(mesh).noe() {
                oeid
            } else {
                old(mesh).face_loop(f)[j]
            }),
{
    let ghost m = *mesh;
    let ghost d = oeid.0 as int;
    let ghost last = m.noe() - 1;
    let ghost dro2 = dro.remove(d);
    mesh.oriented_edges.swap_remove(oeid.index());
    // swap_remove reassigns index `mesh.oriented_edges.len() - 1` to oeid
    // It's referenced in its edge and face, update those.
    if oeid.index() != mesh.oriented_edges.len() {
        assert(live_oe(m, dro, last));
        assert(m.oe_edge_ok(last));
        assert(m.oe_in_own_slot(last));
        assert(m.oe_face_ok(last));
        let oe = mesh.oriented_edges[oeid.index()];
        let swapped_oeid = OrientedEdgeId::new(mesh.oriented_edges.len());
        assert(live_edge(m, dre, oe.edge.0 as int));
        assert(m.edge_slot_ok(oe.edge.0 as int, 0));
        assert(m.edge_slot_ok(oe.edge.0 as int, 1));
        let mut edge = mesh.edges[oe.edge.index()];
        if edge.oriented_edges[0].index() == mesh.oriented_edges.len() {
            edge = Edge { vertices: edge.vertices, oriented_edges: [oeid, edge.oriented_edges[1]] };
        } else {
            assert(edge.oriented_edges[1] == swapped_oeid);
            edge = Edge { vertices: edge.vertices, oriented_edges: [edge.oriented_edges[0], oeid] };
        }
        assert(edge.vertices == m.edges@[oe.edge.0 as int].vertices);
        assert(edge.oriented_edges[0] == (if m.edges@[oe.edge.0 as int].oriented_edges[0].0 == last {
            oeid
        } else {
            m.edges@[oe.edge.0 as int].oriented_edges[0]
        }));
        assert(edge.oriented_edges[1] == (if m.edges@[oe.edge.0 as int].oriented_edges[1].0 == last {
            oeid
        } else {
            m.edges@[oe.edge.0 as int].oriented_edges[1]
        }));
        mesh.edges.set(oe.edge.index(), edge);
        assert(mesh.faces@ == m.faces@);
        let g = oe.face.index();
        let slot = position_of(&mesh.faces[g].oriented_edges, swapped_oeid);
        let ghost l = m.face_loop(g as int);
        proof {
            let t = choose|t: int| 0 <= t < l.len() && l[t] == OrientedEdgeId(last as u32);
            assert(mesh.faces@[g as int].oriented_edges@[t] == swapped_oeid);
        }
        let slot = slot.unwrap();
        mesh.faces[g].oriented_edges.set(slot, oeid);
        let ghost m2 = *mesh;
        let ghost e = oe.edge.0 as int;
        assert(live_face(m, drf, g as int));
        assert(m2.face_loop(g as int) == l.update(slot as int, oeid));
        assert forall|f: int| 0 <= f < m2.nf() && f != g implies #[trigger] m2.faces@[f] == m.faces@[f] by {}
        assert forall|f: int, j: int| 0 <= f < m2.nf() && !drf.contains(f) && 0 <= j < m2.face_loop(f).len() implies #[trigger] m2.face_loop(
            f,
        )[j] == (if m.face_loop(f)[j].0 == last {
            oeid
        } else {
            m.face_loop(f)[j]
        }) by {
            if f == g {
                assert(l[slot as int] == swapped_oeid);
                if j != slot {
                    if m.face_loop(f)[j].0 == last {
                        assert(l[j].0 != l[slot as int].0);
                    }
                }
            } else {
                if m.face_loop(f)[j].0 == last && live_face(m, drf, f) {
                    assert(m.loop_entry_ok(f, j));
                }
            }
        }
        // live oriented edges of the new mesh and where they were
        assert forall|k: int| live_oe(m2, dro2, k) implies live_oe(m, dro, if k == d {
            last
        } else {
            k
        }) by {}
        assert forall|k: int| live_oe(m2, dro2, k) implies #[trigger] m2.start_vertex(k)
            == m.start_vertex(if k == d {
            last
        } else {
            k
        }) && m2.end_vertex(k) == m.end_vertex(if k == d {
            last
        } else {
            k
        }) by {
            let k0 = if k == d {
                last
            } else {
                k
            };
            assert(m.oe_edge_ok(k0));
        }
        assert forall|i: int, s: int| live_edge(m2, dre, i) && 0 <= s < 2 implies #[trigger] m2.edge_vertex_ok(
            i,
            s,
        ) by {
            assert(live_edge(m, dre, i));
            assert(m.edge_vertex_ok(i, s));
        }
        assert forall|i: int, s: int| live_edge(m2, dre, i) && 0 <= s < 2 implies #[trigger] m2.edge_slot_ok(
            i,
            s,
        ) && !dro2.contains(m2.edges@[i].oriented_edges[s].0 as int) by {
            assert(live_edge(m, dre, i));
            assert(m.edge_slot_ok(i, s));
            let o = m.edges@[i].oriented_edges[s].0 as int;
            if i == e {
                assert(m.edge_slot_ok(i, 0));
                assert(m.edge_slot_ok(i, 1));
            } else {
                if o == last {
                    assert(m.oriented_edges@[last].edge.0 == i);
                }
            }
        }
        assert forall|k: int| live_oe(m2, dro2, k) implies #[trigger] m2.oe_edge_ok(k) && !dre.contains(
            m2.oriented_edges@[k].edge.0 as int,
        ) && m2.oe_in_own_slot(k) by {
            let k0 = if k == d {
                last
            } else {
                k
            };
            assert(live_oe(m, dro, k0));
            assert(m.oe_edge_ok(k0));
            assert(m.oe_in_own_slot(k0));
            let ek = m.oriented_edges@[k0].edge.0 as int;
            if ek == e && k != d {
                assert(m.oe_in_own_slot(last));
                if m.oriented_edges@[k].forward {
                    assert(m.edges@[e].oriented_edges[0].0 == k);
                } else {
                    assert(m.edges@[e].oriented_edges[1].0 == k);
                }
            }
        }
        assert forall|k: int| live_oe(m2, dro2, k) implies #[trigger] m2.oe_face_ok(k) && !drf.contains(
            m2.oriented_edges@[k].face.0 as int,
        ) by {
            let k0 = if k == d {
                last
            } else {
                k
            };
            assert(live_oe(m, dro, k0));
            assert(m.oe_face_ok(k0));
            let h = m.oriented_edges@[k0].face.0 as int;
            let lh = m.face_loop(h);
            let t = choose|t: int| 0 <= t < lh.len() && lh[t] == OrientedEdgeId(k0 as u32);
            assert(m2.face_loop(h)[t] == (if m.face_loop(h)[t].0 == last {
                oeid
            } else {
                m.face_loop(h)[t]
            }));
        }
        assert forall|f: int, j: int| live_face(m2, drf, f) && 0 <= j < m2.face_loop(f).len() implies #[trigger] m2.loop_entry_ok(
            f,
            j,
        ) && !dro2.contains(m2.face_loop(f)[j].0 as int) && m2.oriented_edges@[m2.face_loop(
            f,
        )[j].0 as int].face.0 == f by {
            assert(live_face(m, drf, f));
            assert(m.loop_entry_ok(f, j));
            assert(m2.face_loop(f)[j] == (if m.face_loop(f)[j].0 == last {
                oeid
            } else {
                m.face_loop(f)[j]
            }));
        }
        assert forall|f: int, j1: int, j2: int|
            live_face(m2, drf, f) && 0 <= j1 < m2.face_loop(f).len() && 0 <= j2 < m2.face_loop(
                f,
            ).len() && j1 != j2 implies (#[trigger] m2.face_loop(f)[j1]).0 != (
        #[trigger] m2.face_loop(f)[j2]).0 by {
            assert(live_face(m, drf, f));
            assert(m.face_loop(f)[j1].0 != m.face_loop(f)[j2].0);
            assert(m.loop_entry_ok(f, j1));
            assert(m.loop_entry_ok(f, j2));
            assert(m2.face_loop(f)[j1] == (if m.face_loop(f)[j1].0 == last {
                oeid
            } else {
                m.face_loop(f)[j1]
            }));
            assert(m2.face_loop(f)[j2] == (if m.face_loop(f)[j2].0 == last {
                oeid
            } else {
                m.face_loop(f)[j2]
            }));
        }
        assert forall|f: int, j: int| live_face(m2, drf, f) && 0 <= j < m2.face_loop(f).len() implies #[trigger] m2.loop_step_ok(
            f,
            j,
        ) by {
            assert(live_face(m, drf, f));
            assert(m.loop_step_ok(f, j));
            let lf = m.face_loop(f);
            let j2 = (j + 1) % (lf.len() as int);
            assert(m.loop_entry_ok(f, j));
            assert(m.loop_entry_ok(f, j2));
            assert(m2.face_loop(f)[j] == (if m.face_loop(f)[j].0 == last {
                oeid
            } else {
                m.face_loop(f)[j]
            }));
            assert(m2.face_loop(f)[j2] == (if m.face_loop(f)[j2].0 == last {
                oeid
            } else {
                m.face_loop(f)[j2]
            }));
            let a = m2.face_loop(f)[j].0 as int;
            let b = m2.face_loop(f)[j2].0 as int;
            assert(live_oe(m2, dro2, a));
            assert(live_oe(m2, dro2, b));
            assert(m2.start_vertex(a) == m.start_vertex(if a == d {
                last
            } else {
                a
            }));
            assert(m2.start_vertex(b) == m.start_vertex(if b == d {
                last
            } else {
                b
            }));
        }
        assert forall|i: int| live_edge(m2, dre, i) implies #[trigger] m2.edge_manifold_ok(i) by {
            assert(live_edge(m, dre, i));
            assert(m.edge_manifold_ok(i));
            assert(m.edge_slot_ok(i, 0));
            assert(m.edge_slot_ok(i, 1));
        }
        assert forall|f: int| live_face(m2, drf, f) implies #[trigger] m2.face_loop(f).len() >= 3 by {
            assert(live_face(m, drf, f));
            assert(m.face_loop(f).len() >= 3);
            if f != g {
                assert(m2.faces@[f] == m.faces@[f]);
            }
        }
        assert(valid_live(m2, dro2, dre, drf));
    } else {
        let ghost m2 = *mesh;
        assert forall|f: int, j: int| 0 <= f < m2.nf() && !drf.contains(f) && 0 <= j < m2.face_loop(f).len() implies #[trigger] m2.face_loop(
            f,
        )[j] == (if m.face_loop(f)[j].0 == m2.noe() {
            oeid
        } else {
            m.face_loop(f)[j]
        }) by {
            if m.face_loop(f)[j].0 == last && live_face(m, drf, f) {
                assert(m.loop_entry_ok(f, j));
            }
        }
        assert forall|i: int, s: int| live_edge(m2, dre, i) && 0 <= s < 2 implies #[trigger] m2.edge_vertex_ok(
            i,
            s,
        ) by {
            assert(live_edge(m, dre, i));
            assert(m.edge_vertex_ok(i, s));
        }
        assert forall|i: int, s: int| live_edge(m2, dre, i) && 0 <= s < 2 implies #[trigger] m2.edge_slot_ok(
            i,
            s,
        ) && !dro2.contains(m2.edges@[i].oriented_edges[s].0 as int) by {
            assert(live_edge(m, dre, i));
            assert(m.edge_slot_ok(i, s));
        }
        assert forall|k: int| live_oe(m2, dro2, k) implies #[trigger] m2.oe_edge_ok(k) && !dre.contains(
            m2.oriented_edges@[k].edge.0 as int,
        ) && m2.oe_in_own_slot(k) by {
            assert(live_oe(m, dro, k));
            assert(m.oe_edge_ok(k));
            assert(m.oe_in_own_slot(k));
        }
        assert forall|k: int| live_oe(m2, dro2, k) implies #[trigger] m2.oe_face_ok(k) && !drf.contains(
            m2.oriented_edges@[k].face.0 as int,
        ) by {
            assert(live_oe(m, dro, k));
            assert(m.oe_face_ok(k));
        }
        assert forall|f: int, j: int| live_face(m2, drf, f) && 0 <= j < m2.face_loop(f).len() implies #[trigger] m2.loop_entry_ok(
            f,
            j,
        ) && !dro2.contains(m2.face_loop(f)[j].0 as int) && m2.oriented_edges@[m2.face_loop(
            f,
        )[j].0 as int].face.0 == f by {
            assert(live_face(m, drf, f));
            assert(m.loop_entry_ok(f, j));
        }
        assert forall|f: int, j1: int, j2: int|
            live_face(m2, drf, f) && 0 <= j1 < m2.face_loop(f).len() && 0 <= j2 < m2.face_loop(
                f,
            ).len() && j1 != j2 implies (#[trigger] m2.face_loop(f)[j1]).0 != (
        #[trigger] m2.face_loop(f)[j2]).0 by {
            assert(live_face(m, drf, f));
            assert(m.face_loop(f)[j1].0 != m.face_loop(f)[j2].0);
        }
        assert forall|f: int, j: int| live_face(m2, drf, f) && 0 <= j < m2.face_loop(f).len() implies #[trigger] m2.loop_step_ok(
            f,
            j,
        ) by {
            assert(live_face(m, drf, f));
            assert(m.loop_step_ok(f, j));
            let lf = m.face_loop(f);
            let j2 = (j + 1) % (lf.len() as int);
            assert(m.loop_entry_ok(f, j));
            assert(m.loop_entry_ok(f, j2));
        }
        assert forall|i: int| live_edge(m2, dre, i) implies #[trigger] m2.edge_manifold_ok(i) by {
            assert(live_edge(m, dre, i));
            assert(m.edge_manifold_ok(i));
            assert(m.edge_slot_ok(i, 0));
            assert(m.edge_slot_ok(i, 1));
        }
        assert forall|f: int| live_face(m2, drf, f) implies #[trigger] m2.face_loop(f).len() >= 3 by {
            assert(live_face(m, drf, f));
            assert(m.face_loop(f).len() >= 3);
            assert(m2.faces@[f] == m.faces@[f]);
        }
        assert(valid_live(m2, dro2, dre, drf));
    }
}

} // verus!
