//! Lemmas on how often oriented edges occur in face loops.

use vstd::prelude::*;

use crate::ids::OrientedEdgeId;
use crate::mesh::{count_in_faces, count_in_loop, Face, Mesh};

verus! {

pub proof fn lemma_count_in_loop_zero(s: Seq<OrientedEdgeId>, k: int)
    requires
        forall|j: int| 0 <= j < s.len() ==> (#[trigger] s[j]).0 != k,
    ensures
        count_in_loop(s, k) == 0,
    decreases s.len(),
{
    if s.len() > 0 {
        assert forall|j: int| 0 <= j < s.drop_last().len() implies (#[trigger] s.drop_last()[j]).0
            != k by {
            assert(s.drop_last()[j] == s[j]);
        }
        lemma_count_in_loop_zero(s.drop_last(), k);
        assert(s.last() == s[s.len() - 1]);
    }
}

pub proof fn lemma_count_in_loop_pos(s: Seq<OrientedEdgeId>, k: int, j: int)
    requires
        0 <= j < s.len(),
        s[j].0 == k,
    ensures
        count_in_loop(s, k) >= 1,
    decreases s.len(),
{
    if j < s.len() - 1 {
        assert(s.drop_last()[j] == s[j]);
        lemma_count_in_loop_pos(s.drop_last(), k, j);
    }
}

pub proof fn lemma_count_in_loop_two(s: Seq<OrientedEdgeId>, k: int, j1: int, j2: int)
    requires
        0 <= j1 < j2 < s.len(),
        s[j1].0 == k,
        s[j2].0 == k,
    ensures
        count_in_loop(s, k) >= 2,
    decreases s.len(),
{
    assert(s.drop_last()[j1] == s[j1]);
    if j2 < s.len() - 1 {
        assert(s.drop_last()[j2] == s[j2]);
        lemma_count_in_loop_two(s.drop_last(), k, j1, j2);
    } else {
        lemma_count_in_loop_pos(s.drop_last(), k, j1);
    }
}

pub proof fn lemma_count_in_loop_one(s: Seq<OrientedEdgeId>, k: int, j: int)
    requires
        0 <= j < s.len(),
        s[j].0 == k,
        forall|i: int| 0 <= i < s.len() && i != j ==> (#[trigger] s[i]).0 != k,
    ensures
        count_in_loop(s, k) == 1,
    decreases s.len(),
{
    if j < s.len() - 1 {
        assert forall|i: int| 0 <= i < s.drop_last().len() && i != j implies (
        #[trigger] s.drop_last()[i]).0 != k by {
            assert(s.drop_last()[i] == s[i]);
        }
        assert(s.drop_last()[j] == s[j]);
        lemma_count_in_loop_one(s.drop_last(), k, j);
    } else {
        assert forall|i: int| 0 <= i < s.drop_last().len() implies (
        #[trigger] s.drop_last()[i]).0 != k by {
            assert(s.drop_last()[i] == s[i]);
        }
        lemma_count_in_loop_zero(s.drop_last(), k);
    }
}

pub proof fn lemma_count_in_faces_ge<N>(faces: Seq<Face<N>>, k: int, f: int)
    requires
        0 <= f < faces.len(),
    ensures
        count_in_faces(faces, k) >= count_in_loop(faces[f].oriented_edges@, k),
    decreases faces.len(),
{
    if f < faces.len() - 1 {
        assert(faces.drop_last()[f] == faces[f]);
        lemma_count_in_faces_ge(faces.drop_last(), k, f);
    }
}

pub proof fn lemma_count_in_faces_ge2<N>(faces: Seq<Face<N>>, k: int, f: int, g: int)
    requires
        0 <= f < g < faces.len(),
    ensures
        count_in_faces(faces, k) >= count_in_loop(faces[f].oriented_edges@, k) + count_in_loop(
            faces[g].oriented_edges@,
            k,
        ),
    decreases faces.len(),
{
    assert(faces.drop_last()[f] == faces[f]);
    if g < faces.len() - 1 {
        assert(faces.drop_last()[g] == faces[g]);
        lemma_count_in_faces_ge2(faces.drop_last(), k, f, g);
    } else {
        lemma_count_in_faces_ge(faces.drop_last(), k, f);
    }
}

pub proof fn lemma_count_in_faces_single<N>(faces: Seq<Face<N>>, k: int, g: int)
    requires
        0 <= g < faces.len(),
        forall|f: int|
            0 <= f < faces.len() && f != g ==> count_in_loop(#[trigger] faces[f].oriented_edges@, k)
                == 0,
    ensures
        count_in_faces(faces, k) == count_in_loop(faces[g].oriented_edges@, k),
    decreases faces.len(),
{
    if g < faces.len() - 1 {
        assert forall|f: int| 0 <= f < faces.drop_last().len() && f != g implies count_in_loop(
            #[trigger] faces.drop_last()[f].oriented_edges@,
            k,
        ) == 0 by {
            assert(faces.drop_last()[f] == faces[f]);
        }
        assert(faces.drop_last()[g] == faces[g]);
        lemma_count_in_faces_single(faces.drop_last(), k, g);
        assert(faces.last() == faces[faces.len() - 1]);
    } else {
        lemma_count_in_faces_zero(faces.drop_last(), k);
    }
}

pub proof fn lemma_count_in_faces_zero<N>(faces: Seq<Face<N>>, k: int)
    requires
        forall|f: int|
            0 <= f < faces.len() ==> count_in_loop(#[trigger] faces[f].oriented_edges@, k) == 0,
    ensures
        count_in_faces(faces, k) == 0,
    decreases faces.len(),
{
    if faces.len() > 0 {
        assert forall|f: int| 0 <= f < faces.drop_last().len() implies count_in_loop(
            #[trigger] faces.drop_last()[f].oriented_edges@,
            k,
        ) == 0 by {
            assert(faces.drop_last()[f] == faces[f]);
        }
        lemma_count_in_faces_zero(faces.drop_last(), k);
        assert(faces.last() == faces[faces.len() - 1]);
    }
}

/// Where each loop entry is in range and sits in the loop of the face it
/// names without repetition, and each oriented edge names a face whose loop
/// holds it, every oriented edge occurs exactly once over all loops.
pub proof fn lemma_partition_gives_counts<P, N>(m: Mesh<P, N>)
    requires
        m.noe() <= u32::MAX + 1,
        forall|k: int| 0 <= k < m.noe() ==> #[trigger] m.oe_face_ok(k),
        m.loops_partition(),
    ensures
        forall|k: int| 0 <= k < m.noe() ==> #[trigger] count_in_faces(m.faces@, k) == 1,
{
    assert forall|k: int| 0 <= k < m.noe() implies #[trigger] count_in_faces(m.faces@, k) == 1 by {
        assert(m.oe_face_ok(k));
        let g = m.oriented_edges@[k].face.0 as int;
        assert forall|f: int| 0 <= f < m.faces@.len() && f != g implies count_in_loop(
            #[trigger] m.faces@[f].oriented_edges@,
            k,
        ) == 0 by {
            assert forall|j: int| 0 <= j < m.faces@[f].oriented_edges@.len() implies (
            #[trigger] m.faces@[f].oriented_edges@[j]).0 != k by {
                assert(m.face_loop(f)[j] == m.faces@[f].oriented_edges@[j]);
            }
            lemma_count_in_loop_zero(m.faces@[f].oriented_edges@, k);
        }
        let l = m.face_loop(g);
        let j = choose|j: int| 0 <= j < l.len() && l[j] == OrientedEdgeId(k as u32);
        assert(l[j].0 == k);
        assert forall|i: int| 0 <= i < l.len() && i != j implies (#[trigger] l[i]).0 != k by {
            assert(m.face_loop(g)[i].0 != m.face_loop(g)[j].0);
        }
        lemma_count_in_loop_one(l, k, j);
        lemma_count_in_faces_single(m.faces@, k, g);
    }
}

/// The converse: in a valid mesh the loops partition the oriented edges.
pub proof fn lemma_valid_gives_partition<P, N>(m: Mesh<P, N>)
    requires
        m.is_valid(),
    ensures
        m.loops_partition(),
{
    assert forall|f: int, j: int| 0 <= f < m.nf() && 0 <= j < m.face_loop(f).len() implies (
    #[trigger] m.oriented_edges@[m.face_loop(f)[j].0 as int]).face.0 == f by {
        let k = m.face_loop(f)[j].0 as int;
        assert(m.loop_entry_ok(f, j));
        assert(m.oe_face_ok(k));
        assert(count_in_faces(m.faces@, k) == 1);
        let g = m.oriented_edges@[k].face.0 as int;
        if g != f {
            let l = m.face_loop(g);
            let jg = choose|jj: int| 0 <= jj < l.len() && l[jj] == OrientedEdgeId(k as u32);
            lemma_count_in_loop_pos(l, k, jg);
            lemma_count_in_loop_pos(m.face_loop(f), k, j);
            if f < g {
                lemma_count_in_faces_ge2(m.faces@, k, f, g);
            } else {
                lemma_count_in_faces_ge2(m.faces@, k, g, f);
            }
        }
    }
    assert forall|f: int, j1: int, j2: int|
        0 <= f < m.nf() && 0 <= j1 < m.face_loop(f).len() && 0 <= j2 < m.face_loop(f).len() && j1
            != j2 implies (#[trigger] m.face_loop(f)[j1]).0 != (#[trigger] m.face_loop(f)[j2]).0 by {
        if m.face_loop(f)[j1].0 == m.face_loop(f)[j2].0 {
            let k = m.face_loop(f)[j1].0 as int;
            assert(m.loop_entry_ok(f, j1));
            if j1 < j2 {
                lemma_count_in_loop_two(m.face_loop(f), k, j1, j2);
            } else {
                lemma_count_in_loop_two(m.face_loop(f), k, j2, j1);
            }
            lemma_count_in_faces_ge(m.faces@, k, f);
        }
    }
}

} // verus!
