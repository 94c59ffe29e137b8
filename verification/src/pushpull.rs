//! The topology that pushing and pulling a face needs: the faces around it,
//! which of them are orthogonal, and the vertices that bound a push.

use vstd::prelude::*;

use crate::ids::{EdgeId, FaceId, VertexId};
use crate::mesh::Mesh;
use crate::pull::{adjacent_seq, sorted_ids};
use std::collections::HashSet;

verus! {

broadcast use {
    vstd::seq_lib::to_multiset_insert,
    vstd::seq_lib::to_multiset_build,
    vstd::std_specs::hash::group_hash_axioms,
};

/// What a push or a pull of one face works with.
pub struct PushPullWorkspace {
    pub adjacent_faces: Vec<FaceId>,
    pub orthogonal_faces_sorted: Vec<FaceId>,
    pub all_faces_orthogonal: bool,
    pub vertices_of_face: Vec<VertexId>,
    pub edges_of_face: Vec<EdgeId>,
}

/// The entries of `faces` whose flag is set, in order.
pub open spec fn flagged(faces: Seq<FaceId>, flags: Seq<bool>) -> Seq<FaceId>
    decreases faces.len(),
{
    if faces.len() == 0 || flags.len() == 0 {
        Seq::empty()
    } else {
        let rest = flagged(faces.drop_last(), flags.drop_last());
        if flags.last() {
            rest.push(faces.last())
        } else {
            rest
        }
    }
}

/// The number of positions `i < j` at which `faces` holds `g` and `flags` is set.
pub open spec fn flag_count(faces: Seq<FaceId>, flags: Seq<bool>, g: FaceId, j: int) -> nat
    decreases j,
{
    if j <= 0 {
        0
    } else {
        flag_count(faces, flags, g, j - 1) + if faces[j - 1] == g && flags[j - 1] {
            1nat
        } else {
            0nat
        }
    }
}

/// The flagged faces hold each face as many times as it stands at a
/// position whose flag is set; in particular a face whose every flag is
/// clear is not among them.
pub proof fn law_flagged_counts(faces: Seq<FaceId>, flags: Seq<bool>, g: FaceId)
    requires
        faces.len() == flags.len(),
    ensures
        flagged(faces, flags).to_multiset().count(g) == flag_count(faces, flags, g, faces.len() as int),
    decreases faces.len(),
{
    if faces.len() > 0 {
        let fd = faces.drop_last();
        let gd = flags.drop_last();
        law_flagged_counts(fd, gd, g);
        assert forall|j: int| 0 <= j <= fd.len() implies flag_count(fd, gd, g, j) == flag_count(
            faces,
            flags,
            g,
            j,
        ) by {
            lemma_flag_count_prefix(faces, flags, g, j);
        }
        let n = faces.len() as int;
        lemma_flag_count_prefix(faces, flags, g, n - 1);
        assert(fd.len() == n - 1);
        assert(faces[n - 1] == faces.last());
        assert(flags[n - 1] == flags.last());
        let rest = flagged(fd, gd);
        assert(flagged(faces, flags) == if flags.last() {
            rest.push(faces.last())
        } else {
            rest
        });
        if flags.last() {
            assert(rest.push(faces.last()).to_multiset() =~= rest.to_multiset().insert(faces.last()));
        }
        let term: nat = if faces.last() == g && flags.last() {
            1
        } else {
            0
        };
        assert(flagged(faces, flags).to_multiset().count(g) == rest.to_multiset().count(g) + term);
        assert(rest.to_multiset().count(g) == flag_count(fd, gd, g, n - 1));
        assert(flag_count(faces, flags, g, n) == flag_count(faces, flags, g, n - 1) + term);
    } else {
        broadcast use vstd::seq_lib::group_to_multiset_ensures;

        assert(flagged(faces, flags) =~= Seq::<FaceId>::empty());
        assert(!flagged(faces, flags).contains(g));
    }
}

proof fn lemma_flag_count_prefix(faces: Seq<FaceId>, flags: Seq<bool>, g: FaceId, j: int)
    requires
        faces.len() == flags.len(),
        0 <= j < faces.len(),
    ensures
        flag_count(faces.drop_last(), flags.drop_last(), g, j) == flag_count(faces, flags, g, j),
    decreases j,
{
    if j > 0 {
        lemma_flag_count_prefix(faces, flags, g, j - 1);
    }
}

/// Inserts `x` into the ascending `v`, keeping it ascending.
fn insert_sorted(v: &mut Vec<FaceId>, x: FaceId)
    requires
        sorted_ids(old(v)@),
    ensures
        sorted_ids(final(v)@),
        final(v)@.to_multiset() == old(v)@.to_multiset().insert(x),
{
    let mut p: usize = 0;
    while p < v.len() && v[p].0 <= x.0
        invariant
            p <= v@.len(),
            forall|i: int| 0 <= i < p ==> v@[i].0 <= x.0,
        decreases v@.len() - p,
    {
        p = p + 1;
    }
    let ghost s = v@;
    v.insert(p, x);
    proof {
        assert(v@ == s.insert(p as int, x));
        assert forall|i: int, j: int| 0 <= i < j < v@.len() implies v@[i].0 <= v@[j].0 by {
            if j < p {
            } else if j == p {
            } else if i < p {
                assert(s[i].0 <= x.0);
                assert(p < s.len());
                assert(s[p as int].0 > x.0);
            } else if i == p {
                assert(s[p as int].0 > x.0);
            } else {
            }
        }
    }
}

/// The faces around face `fid`, which of them are orthogonal to it (one flag
/// per adjacent face, in loop order), and the vertices and edges of `fid`.
pub fn make_push_pull_workspace<P, N>(mesh: &Mesh<P, N>, fid: FaceId, orthogonal: &Vec<bool>) -> (res:
    PushPullWorkspace)
    requires
        mesh.face_twins_walkable(fid.0 as int),
        orthogonal@.len() == mesh.face_loop(fid.0 as int).len(),
    ensures
        res.adjacent_faces@ == adjacent_seq(*mesh, fid.0 as int),
        res.vertices_of_face@ == Seq::new(
            mesh.face_loop(fid.0 as int).len(),
            |j: int| mesh.start_vertex(mesh.face_loop(fid.0 as int)[j].0 as int),
        ),
        res.edges_of_face@ == Seq::new(
            mesh.face_loop(fid.0 as int).len(),
            |j: int| mesh.oriented_edges@[mesh.face_loop(fid.0 as int)[j].0 as int].edge,
        ),
        res.all_faces_orthogonal == (forall|i: int| 0 <= i < orthogonal@.len() ==> orthogonal@[i]),
        sorted_ids(res.orthogonal_faces_sorted@),
        res.orthogonal_faces_sorted@.to_multiset() == flagged(
            adjacent_seq(*mesh, fid.0 as int),
            orthogonal@,
        ).to_multiset(),
        forall|g: FaceId|
            #[trigger] res.orthogonal_faces_sorted@.to_multiset().count(g) == flag_count(
                adjacent_seq(*mesh, fid.0 as int),
                orthogonal@,
                g,
                orthogonal@.len() as int,
            ),
{
    // Enumerate adjacent faces and collect orthogonal faces.
    let adjacent_faces = mesh.adjacent_faces(fid);
    assert(adjacent_faces@ =~= adjacent_seq(*mesh, fid.0 as int));
    let mut orthogonal_faces_sorted: Vec<FaceId> = Vec::new();
    let mut all_faces_orthogonal = true;
    let mut i: usize = 0;
    while i < adjacent_faces.len()
        invariant
            adjacent_faces@.len() == orthogonal@.len(),
            i <= adjacent_faces@.len(),
            sorted_ids(orthogonal_faces_sorted@),
            orthogonal_faces_sorted@.to_multiset() == flagged(
                adjacent_faces@.take(i as int),
                orthogonal@.take(i as int),
            ).to_multiset(),
            all_faces_orthogonal == (forall|j: int| 0 <= j < i ==> orthogonal@[j]),
        decreases adjacent_faces@.len() - i,
    {
        let afid = adjacent_faces[i];
        proof {
            assert(adjacent_faces@.take(i + 1).drop_last() =~= adjacent_faces@.take(i as int));
            assert(orthogonal@.take(i + 1).drop_last() =~= orthogonal@.take(i as int));
        }
        if orthogonal[i] {
            insert_sorted(&mut orthogonal_faces_sorted, afid);
        } else {
            all_faces_orthogonal = false;
        }
        i = i + 1;
    }
    proof {
        assert(adjacent_faces@.take(i as int) =~= adjacent_faces@);
        assert(orthogonal@.take(i as int) =~= orthogonal@);
        assert forall|g: FaceId| #[trigger] orthogonal_faces_sorted@.to_multiset().count(g) == flag_count(
            adjacent_seq(*mesh, fid.0 as int),
            orthogonal@,
            g,
            orthogonal@.len() as int,
        ) by {
            law_flagged_counts(adjacent_seq(*mesh, fid.0 as int), orthogonal@, g);
        }
    }
    PushPullWorkspace {
        adjacent_faces: adjacent_faces,
        orthogonal_faces_sorted,
        all_faces_orthogonal: all_faces_orthogonal,
        vertices_of_face: mesh.vertices_of_face(fid),
        edges_of_face: mesh.edges_of_face(fid),
    }
}

/// The edges of face `f`, in loop order.
pub open spec fn face_edges<P, N>(m: Mesh<P, N>, f: int) -> Seq<EdgeId> {
    Seq::new(m.face_loop(f).len(), |j: int| m.oriented_edges@[m.face_loop(f)[j].0 as int].edge)
}

/// The edges of the faces `faces`, one face after the other.
pub open spec fn faces_edges<P, N>(m: Mesh<P, N>, faces: Seq<FaceId>) -> Seq<EdgeId>
    decreases faces.len(),
{
    if faces.len() == 0 {
        Seq::empty()
    } else {
        faces_edges(m, faces.drop_last()) + face_edges(m, faces.last().0 as int)
    }
}

/// Number of occurrences of `e` in `s`.
pub open spec fn count_edge(s: Seq<EdgeId>, e: EdgeId) -> nat
    decreases s.len(),
{
    if s.len() == 0 {
        0
    } else {
        count_edge(s.drop_last(), e) + (if s.last() == e {
            1nat
        } else {
            0nat
        })
    }
}

/// Edge `e` bounds a push of face `fid`: taking the edges of `fid`, then
/// toggling the membership of each edge of each adjacent face (with
/// repetition), `e` ends up in the set.
pub open spec fn bounds_push<P, N>(m: Mesh<P, N>, fid: int, e: EdgeId) -> bool {
    face_edges(m, fid).contains(e) != (count_edge(faces_edges(m, adjacent_seq(m, fid)), e) % 2 == 1)
}

/// Edge index `t` is in the set `s`.
pub open spec fn has_edge(s: Set<u32>, t: int) -> bool {
    s.contains(t as u32)
}

/// The vertices of the edges that bound a push of face `fid`: the edges of
/// the face and of its adjacent faces that are not shared by two of them.
/// The nearest of these vertices limits how far the face can be pushed.
pub fn push_limit_vertices<P, N>(mesh: &Mesh<P, N>, fid: FaceId, wsp: &PushPullWorkspace) -> (res: Vec<
    VertexId,
>)
    requires
        mesh.ne() <= u32::MAX,
        mesh.face_twins_walkable(fid.0 as int),
        wsp.adjacent_faces@ == adjacent_seq(*mesh, fid.0 as int),
        wsp.edges_of_face@ == face_edges(*mesh, fid.0 as int),
        forall|j: int|
            0 <= j < wsp.adjacent_faces@.len() ==> mesh.face_walkable(
                (#[trigger] wsp.adjacent_faces@[j]).0 as int,
            ),
    ensures
        res@.no_duplicates(),
        forall|v: VertexId|
            res@.contains(v) <==> exists|e: EdgeId|
                e.0 < mesh.ne() && bounds_push(*mesh, fid.0 as int, e) && (mesh.edges@[e.0 as int].vertices[0]
                    == v || mesh.edges@[e.0 as int].vertices[1] == v),
{
    let ghost m = *mesh;
    let ghost fi = fid.0 as int;
    let ne = mesh.edges.len();
    // First add the edges of the moved face.
    let mut bounding: HashSet<u32> = HashSet::new();
    let eof = &wsp.edges_of_face;
    let mut i: usize = 0;
    while i < eof.len()
        invariant
            mesh.face_twins_walkable(fi),
            eof@ == face_edges(m, fi),
            ne == m.ne(),
            m == *mesh,
            m.ne() <= u32::MAX,
            i <= eof@.len(),
            forall|t: int|
                0 <= t < ne ==> #[trigger] has_edge(bounding@, t) == eof@.take(i as int).contains(
                    EdgeId(t as u32),
                ),
        decreases eof@.len() - i,
    {
        let e = eof[i];
        assert(m.face_loop(fi)[i as int].0 < m.noe());
        let ghost before = bounding@;
        bounding.insert(e.0);
        proof {
            assert(bounding@ == before.insert(e.0));
            assert forall|t: int| 0 <= t < ne implies #[trigger] has_edge(bounding@, t) == eof@.take(i + 1).contains(
                EdgeId(t as u32),
            ) by {
                assert(has_edge(before, t) == eof@.take(i as int).contains(EdgeId(t as u32)));
                assert(eof@.take(i + 1) == eof@.take(i as int).push(e));
                if t == e.0 {
                    assert(eof@.take(i + 1)[i as int] == EdgeId(t as u32));
                }
                if eof@.take(i + 1).contains(EdgeId(t as u32)) && t != e.0 {
                    let q = choose|q: int|
                        0 <= q < eof@.take(i + 1).len() && #[trigger] eof@.take(i + 1)[q] == EdgeId(
                            t as u32,
                        );
                    assert(eof@.take(i as int)[q] == EdgeId(t as u32));
                }
            }
        }
        i = i + 1;
    }
    assert(eof@.take(eof@.len() as int) =~= eof@);
    // Then the edges of the adjacent faces, one face after the other.
    let adj = &wsp.adjacent_faces;
    let mut all: Vec<EdgeId> = Vec::new();
    let mut j: usize = 0;
    while j < adj.len()
        invariant
            adj@ == adjacent_seq(m, fi),
            m == *mesh,
            forall|t: int| 0 <= t < adj@.len() ==> m.face_walkable((#[trigger] adj@[t]).0 as int),
            j <= adj@.len(),
            all@ == faces_edges(m, adj@.take(j as int)),
            forall|q: int| 0 <= q < all@.len() ==> (#[trigger] all@[q]).0 < m.ne(),
        decreases adj@.len() - j,
    {
        let mut es = mesh.edges_of_face(adj[j]);
        proof {
            assert(adj@.take(j + 1).drop_last() =~= adj@.take(j as int));
            assert(es@ =~= face_edges(m, adj@[j as int].0 as int));
            assert forall|q: int| 0 <= q < es@.len() implies (#[trigger] es@[q]).0 < m.ne() by {
                assert(m.face_walkable(adj@[j as int].0 as int));
            }
        }
        all.append(&mut es);
        j = j + 1;
    }
    assert(adj@.take(adj@.len() as int) =~= adj@);
    // Toggle: an edge seen a second time leaves the set again.
    let mut q: usize = 0;
    while q < all.len()
        invariant
            ne == m.ne(),
            m == *mesh,
            m.ne() <= u32::MAX,
            q <= all@.len(),
            forall|r: int| 0 <= r < all@.len() ==> (#[trigger] all@[r]).0 < m.ne(),
            forall|t: int|
                0 <= t < ne ==> #[trigger] has_edge(bounding@, t) == (eof@.contains(EdgeId(t as u32)) != (count_edge(
                    all@.take(q as int),
                    EdgeId(t as u32),
                ) % 2 == 1)),
        decreases all@.len() - q,
    {
        let e = all[q];
        let ghost before = bounding@;
        if !bounding.insert(e.0) {
            bounding.remove(&e.0);
        }
        proof {
            if before.contains(e.0) {
                assert(bounding@ == before.remove(e.0));
            } else {
                assert(bounding@ == before.insert(e.0));
            }
            assert(all@.take(q + 1).drop_last() =~= all@.take(q as int));
            assert forall|t: int| 0 <= t < ne implies #[trigger] has_edge(bounding@, t) == (eof@.contains(EdgeId(t as u32))
                != (count_edge(all@.take(q + 1), EdgeId(t as u32)) % 2 == 1)) by {
                assert(has_edge(before, t) == (eof@.contains(EdgeId(t as u32)) != (count_edge(
                    all@.take(q as int),
                    EdgeId(t as u32),
                ) % 2 == 1)));
                if t == e.0 {
                    assert(all@.take(q + 1).last() == e);
                    assert(EdgeId(t as u32) == e);
                } else {
                    assert(all@.take(q + 1).last() != EdgeId(t as u32));
                }
            }
        }
        q = q + 1;
    }
    assert(all@.take(all@.len() as int) =~= all@);
    // Collect the vertices of the edges left in the set.
    let mut res: Vec<VertexId> = Vec::new();
    let mut x: usize = 0;
    while x < ne
        invariant
            ne == m.ne(),
            m == *mesh,
            m.ne() <= u32::MAX,
            x <= ne,
            res@.no_duplicates(),
            forall|t: int|
                0 <= t < ne ==> #[trigger] has_edge(bounding@, t) == (eof@.contains(EdgeId(t as u32)) != (count_edge(
                    all@,
                    EdgeId(t as u32),
                ) % 2 == 1)),
            forall|v: VertexId|
                res@.contains(v) <==> exists|t: int|
                    0 <= t < x && has_edge(bounding@, t) && (m.edges@[t].vertices[0] == v
                        || m.edges@[t].vertices[1] == v),
        decreases ne - x,
    {
        if bounding.contains(&(x as u32)) {
            let vs = mesh.edges[x].vertices;
            let mut s: usize = 0;
            while s < 2
                invariant
                    x < ne,
                    ne == m.ne(),
            m == *mesh,
            m.ne() <= u32::MAX,
                    vs == m.edges@[x as int].vertices,
                    has_edge(bounding@, x as int),
                    s <= 2,
                    res@.no_duplicates(),
                    forall|v: VertexId|
                        res@.contains(v) <==> (exists|t: int|
                            0 <= t < x && has_edge(bounding@, t) && (m.edges@[t].vertices[0] == v
                                || m.edges@[t].vertices[1] == v)) || (exists|u: int|
                            0 <= u < s && vs[u] == v),
                decreases 2 - s,
            {
                let v = vs[s];
                let ghost start_res = res@;
                let mut found = false;
                let mut w: usize = 0;
                while w < res.len()
                    invariant
                        w <= res@.len(),
                        res@ == start_res,
                        found == res@.take(w as int).contains(v),
                    decreases res@.len() - w,
                {
                    if res[w] == v {
                        found = true;
                    }
                    proof {
                        assert(res@.take(w + 1).drop_last() =~= res@.take(w as int));
                        if res@.take(w + 1).contains(v) && !res@.take(w as int).contains(v) {
                            assert(res@[w as int] == v);
                        }
                        if res@[w as int] == v {
                            assert(res@.take(w + 1)[w as int] == v);
                        }
                    }
                    w = w + 1;
                }
                assert(res@.take(res@.len() as int) =~= res@);
                let ghost old_res = res@;
                if !found {
                    res.push(v);
                }
                proof {
                    assert forall|y: VertexId| res@.contains(y) <==> old_res.contains(y) || y == v by {
                        if res@.contains(y) && !old_res.contains(y) {
                            let q = choose|q: int| 0 <= q < res@.len() && res@[q] == y;
                            assert(q == old_res.len());
                        }
                        if old_res.contains(y) {
                            let q = choose|q: int| 0 <= q < old_res.len() && old_res[q] == y;
                            assert(res@[q] == y);
                        }
                        if y == v && !found {
                            assert(res@[old_res.len() as int] == y);
                        }
                    }
                    assert forall|a: int, b: int|
                        0 <= a < res@.len() && 0 <= b < res@.len() && a != b implies res@[a]
                        != res@[b] by {
                        if a < old_res.len() && b < old_res.len() {
                            assert(old_res[a] != old_res[b]);
                        } else if a < old_res.len() {
                            assert(old_res.contains(res@[a]));
                        } else if b < old_res.len() {
                            assert(old_res.contains(res@[b]));
                        }
                    }
                }
                proof {
                    assert forall|y: VertexId| res@.contains(y) <==> (exists|t: int|
                        0 <= t < x && has_edge(bounding@, t) && (m.edges@[t].vertices[0] == y
                            || m.edges@[t].vertices[1] == y)) || (exists|u: int|
                        0 <= u < s + 1 && vs[u] == y) by {
                        assert(res@.contains(y) <==> old_res.contains(y) || y == v);
                        assert(old_res.contains(y) <==> (exists|t: int|
                            0 <= t < x && has_edge(bounding@, t) && (m.edges@[t].vertices[0] == y
                                || m.edges@[t].vertices[1] == y)) || (exists|u: int|
                            0 <= u < s && vs[u] == y));
                        if exists|u: int| 0 <= u < s + 1 && vs[u] == y {
                            let u = choose|u: int| 0 <= u < s + 1 && vs[u] == y;
                            if u < s {
                                assert(exists|u2: int| 0 <= u2 < s && vs[u2] == y);
                            }
                        }
                        if y == v {
                            assert(vs[s as int] == y);
                        }
                        if exists|u: int| 0 <= u < s && vs[u] == y {
                            let u = choose|u: int| 0 <= u < s && vs[u] == y;
                            assert(0 <= u < s + 1 && vs[u] == y);
                        }
                    }
                }
                s = s + 1;
            }
        }
        proof {
            assert forall|v: VertexId| res@.contains(v) <==> exists|t: int|
                0 <= t < x + 1 && has_edge(bounding@, t) && (m.edges@[t].vertices[0] == v
                    || m.edges@[t].vertices[1] == v) by {
                if exists|t: int|
                    0 <= t < x + 1 && has_edge(bounding@, t) && (m.edges@[t].vertices[0] == v
                        || m.edges@[t].vertices[1] == v) {
                    let t = choose|t: int|
                        0 <= t < x + 1 && has_edge(bounding@, t) && (m.edges@[t].vertices[0] == v
                            || m.edges@[t].vertices[1] == v);
                    if t == x {
                        if m.edges@[t].vertices[0] == v {
                            assert(exists|u: int| 0 <= u < 2 && m.edges@[x as int].vertices[u] == v);
                        } else {
                            assert(m.edges@[x as int].vertices[1] == v);
                        }
                    }
                }
            }
        }
        x = x + 1;
    }
    proof {
        assert forall|v: VertexId| res@.contains(v) <==> exists|e: EdgeId|
            e.0 < m.ne() && bounds_push(m, fi, e) && (m.edges@[e.0 as int].vertices[0] == v
                || m.edges@[e.0 as int].vertices[1] == v) by {
            if res@.contains(v) {
                let t = choose|t: int|
                    0 <= t < ne && has_edge(bounding@, t) && (m.edges@[t].vertices[0] == v
                        || m.edges@[t].vertices[1] == v);
                let e = EdgeId(t as u32);
                assert(bounds_push(m, fi, e));
            }
            if exists|e: EdgeId|
                e.0 < m.ne() && bounds_push(m, fi, e) && (m.edges@[e.0 as int].vertices[0] == v
                    || m.edges@[e.0 as int].vertices[1] == v) {
                let e = choose|e: EdgeId|
                    e.0 < m.ne() && bounds_push(m, fi, e) && (m.edges@[e.0 as int].vertices[0] == v
                        || m.edges@[e.0 as int].vertices[1] == v);
                let t = e.0 as int;
                assert(EdgeId(t as u32) == e);
                assert(has_edge(bounding@, t));
            }
        }
    }
    res
}

} // verus!
