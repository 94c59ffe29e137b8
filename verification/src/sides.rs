//! The sides of a face loop: for each entry, the vertex where its oriented
//! edge starts and the vertex where it ends. Unlike the oriented edge ids,
//! which the compaction of the arenas renumbers, the sides of a loop name
//! vertices only, and vertices keep their ids.

use vstd::prelude::*;

use vstd::multiset::Multiset;

use crate::ids::{OrientedEdgeId, VertexId};
use crate::mesh::Mesh;
use crate::pull::{after, merged_loop};

verus! {

broadcast use vstd::multiset::group_multiset_axioms;

/// The start and end vertex of oriented edge `k`.
pub open spec fn side<P, N>(m: Mesh<P, N>, k: int) -> (VertexId, VertexId) {
    (m.start_vertex(k), m.end_vertex(k))
}

/// The sides of the entries of `s`, counted with repetition.
pub open spec fn sides<P, N>(m: Mesh<P, N>, s: Seq<OrientedEdgeId>) -> Multiset<
    (VertexId, VertexId),
>
    decreases s.len(),
{
    if s.len() == 0 {
        Multiset::empty()
    } else {
        sides(m, s.drop_last()).insert(side(m, s.last().0 as int))
    }
}

/// The sides of the loop of face `h`.
pub open spec fn loop_sides<P, N>(m: Mesh<P, N>, h: int) -> Multiset<
    (VertexId, VertexId),
> {
    sides(m, m.face_loop(h))
}

/// The sides of a concatenation are those of its parts.
pub proof fn lemma_sides_concat<P, N>(m: Mesh<P, N>, a: Seq<OrientedEdgeId>, b: Seq<OrientedEdgeId>)
    ensures
        sides(m, a + b) == sides(m, a).add(sides(m, b)),
    decreases b.len(),
{
    if b.len() == 0 {
        assert(a + b =~= a);
        assert(sides(m, a).add(sides(m, b)) =~= sides(m, a));
    } else {
        lemma_sides_concat(m, a, b.drop_last());
        assert((a + b).drop_last() =~= a + b.drop_last());
        assert((a + b).last() == b.last());
        assert(sides(m, a + b) =~= sides(m, a).add(sides(m, b)));
    }
}

/// Two sequences whose entries have, one by one, the same sides (each in its
/// own mesh) have the same sides.
pub proof fn lemma_sides_same<P, N>(
    m1: Mesh<P, N>,
    s1: Seq<OrientedEdgeId>,
    m2: Mesh<P, N>,
    s2: Seq<OrientedEdgeId>,
)
    requires
        s1.len() == s2.len(),
        forall|j: int| 0 <= j < s1.len() ==> side(m1, #[trigger] s1[j].0 as int) == side(m2, s2[j].0 as int),
    ensures
        sides(m1, s1) == sides(m2, s2),
    decreases s1.len(),
{
    if s1.len() > 0 {
        let a = s1.drop_last();
        let b = s2.drop_last();
        assert forall|j: int| 0 <= j < a.len() implies side(m1, #[trigger] a[j].0 as int) == side(
            m2,
            b[j].0 as int,
        ) by {
            assert(a[j] == s1[j]);
            assert(b[j] == s2[j]);
        }
        lemma_sides_same(m1, a, m2, b);
        assert(side(m1, s1[s1.len() - 1].0 as int) == side(m2, s2[s2.len() - 1].0 as int));
    }
}

/// The sides of `s` are those of `s` without entry `p`, plus the side of
/// entry `p`; the rest of `s` is taken from just after `p` round to just
/// before it.
pub proof fn lemma_sides_rotated<P, N>(m: Mesh<P, N>, s: Seq<OrientedEdgeId>, p: int)
    requires
        0 <= p < s.len(),
    ensures
        sides(m, s) == sides(m, s.subrange(p + 1, s.len() as int) + s.subrange(0, p)).insert(
            side(m, s[p].0 as int),
        ),
{
    let a = s.subrange(0, p);
    let b = s.subrange(p + 1, s.len() as int);
    assert(s =~= a + seq![s[p]] + b);
    lemma_sides_concat(m, a + seq![s[p]], b);
    lemma_sides_concat(m, a, seq![s[p]]);
    lemma_sides_concat(m, b, a);
    assert(seq![s[p]].drop_last() =~= Seq::<OrientedEdgeId>::empty());
    assert(sides(m, seq![s[p]].drop_last()) =~= Multiset::empty());
    assert(sides(m, seq![s[p]]) =~= Multiset::empty().insert(side(m, s[p].0 as int)));
    assert(sides(m, s) =~= sides(m, b + a).insert(side(m, s[p].0 as int)));
}

/// The sides of two loops merged across entry `pf` of `lf` and entry `pg`
/// of `lg` are those of both loops but for these two entries.
pub proof fn lemma_sides_merged<P, N>(
    m: Mesh<P, N>,
    lf: Seq<OrientedEdgeId>,
    pf: int,
    lg: Seq<OrientedEdgeId>,
    pg: int,
)
    requires
        0 <= pf < lf.len(),
        0 <= pg < lg.len(),
    ensures
        sides(m, merged_loop(lf, pf, lg, pg)).insert(side(m, lf[pf].0 as int)).insert(
            side(m, lg[pg].0 as int),
        ) == sides(m, lf).add(sides(m, lg)),
{
    let rf = lf.subrange(pf + 1, lf.len() as int) + lf.subrange(0, pf);
    let rg = lg.subrange(pg + 1, lg.len() as int) + lg.subrange(0, pg);
    assert(Seq::new((lf.len() - 1) as nat, |k: int| lf[after(pf, k, lf.len() as int)]) =~= rf);
    assert(Seq::new((lg.len() - 1) as nat, |k: int| lg[after(pg, k, lg.len() as int)]) =~= rg);
    assert(merged_loop(lf, pf, lg, pg) =~= rf + rg);
    lemma_sides_concat(m, rf, rg);
    lemma_sides_rotated(m, lf, pf);
    lemma_sides_rotated(m, lg, pg);
    assert(sides(m, merged_loop(lf, pf, lg, pg)).insert(side(m, lf[pf].0 as int)).insert(
        side(m, lg[pg].0 as int),
    ) =~= sides(m, lf).add(sides(m, lg)));
}

/// The multisets `f(h)` for `lo <= h < hi`, added up.
pub open spec fn sum_range(f: spec_fn(int) -> Multiset<(VertexId, VertexId)>, lo: int, hi: int) -> Multiset<
    (VertexId, VertexId),
>
    decreases hi - lo,
{
    if hi <= lo {
        Multiset::empty()
    } else {
        sum_range(f, lo, hi - 1).add(f(hi - 1))
    }
}

/// The sides of the faces `lo..hi`, taken together.
pub open spec fn faces_sides<P, N>(m: Mesh<P, N>, lo: int, hi: int) -> Multiset<(VertexId, VertexId)> {
    sum_range(|h: int| loop_sides(m, h), lo, hi)
}

/// Functions that agree on a range have the same sum there.
pub proof fn lemma_sum_ext(
    f: spec_fn(int) -> Multiset<(VertexId, VertexId)>,
    g: spec_fn(int) -> Multiset<(VertexId, VertexId)>,
    lo: int,
    hi: int,
)
    requires
        forall|h: int| lo <= h < hi ==> #[trigger] f(h) == g(h),
    ensures
        sum_range(f, lo, hi) == sum_range(g, lo, hi),
    decreases hi - lo,
{
    if hi > lo {
        lemma_sum_ext(f, g, lo, hi - 1);
    }
}

/// Functions that agree on a range but at `d` have sums that differ by
/// their values at `d`.
pub proof fn lemma_sum_one_changed(
    f: spec_fn(int) -> Multiset<(VertexId, VertexId)>,
    g: spec_fn(int) -> Multiset<(VertexId, VertexId)>,
    lo: int,
    hi: int,
    d: int,
)
    requires
        lo <= d < hi,
        forall|h: int| lo <= h < hi && h != d ==> #[trigger] f(h) == g(h),
    ensures
        sum_range(f, lo, hi).add(g(d)) == sum_range(g, lo, hi).add(f(d)),
    decreases hi - lo,
{
    if hi - 1 == d {
        lemma_sum_ext(f, g, lo, hi - 1);
        assert(sum_range(f, lo, hi).add(g(d)) =~= sum_range(g, lo, hi).add(f(d)));
    } else {
        lemma_sum_one_changed(f, g, lo, hi - 1, d);
        assert(f(hi - 1) == g(hi - 1));
        assert(sum_range(f, lo, hi) == sum_range(f, lo, hi - 1).add(f(hi - 1)));
        assert(sum_range(g, lo, hi) == sum_range(g, lo, hi - 1).add(g(hi - 1)));
        assert forall|x: (VertexId, VertexId)| #[trigger] sum_range(f, lo, hi).add(g(d)).count(x)
            == sum_range(g, lo, hi).add(f(d)).count(x) by {
            assert(sum_range(f, lo, hi - 1).add(g(d)).count(x) == sum_range(g, lo, hi - 1).add(
                f(d),
            ).count(x));
        }
        assert(sum_range(f, lo, hi).add(g(d)) =~= sum_range(g, lo, hi).add(f(d)));
    }
}

} // verus!
