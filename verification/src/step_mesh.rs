//! Building a mesh from the topology instances of a STEP file:
//! `CARTESIAN_POINT`, `VERTEX_POINT`, `EDGE_CURVE`, `ORIENTED_EDGE`,
//! `EDGE_LOOP`, `FACE_BOUND` / `FACE_OUTER_BOUND` and `ADVANCED_FACE`.

use vstd::prelude::*;

use crate::ids::{EdgeId, FaceId, OrientedEdgeId, VertexId};
use crate::mesh::{Edge, Face, Mesh, OrientedEdge, Vertex};
use crate::step::{
    parse_text, lookup, EntityMap, EntityView, Param, ParamView, StepError, ids_ascending,
    params_view,
};
use crate::text::{decimal_text, sub_chars};
use std::collections::HashMap;

verus! {

broadcast use vstd::std_specs::hash::group_hash_axioms;

/// The coordinates of a `CARTESIAN_POINT`, as written in the file; each is a
/// literal that `str::parse::<f64>` accepts.
#[derive(Debug)]
pub struct StepPoint {
    pub x: Vec<char>,
    pub y: Vec<char>,
    pub z: Vec<char>,
}

pub open spec fn opt_view(p: Option<&Param>) -> Option<ParamView> {
    match p {
        Some(x) => Some(x@),
        None => None,
    }
}

pub open spec fn param_at(ps: Seq<ParamView>, i: int) -> Option<ParamView> {
    if 0 <= i < ps.len() {
        Some(ps[i])
    } else {
        None
    }
}

pub open spec fn ref_of(p: Option<ParamView>) -> Option<u32> {
    match p {
        Some(ParamView::Ref(r)) => Some(r),
        _ => None,
    }
}

pub open spec fn real_of(p: Option<ParamView>) -> Option<Seq<char>> {
    match p {
        Some(ParamView::Real(t)) => Some(t),
        _ => None,
    }
}

/// `.T.` is true and `.F.` false.
pub open spec fn bool_of(p: Option<ParamView>) -> Option<bool> {
    match p {
        Some(ParamView::Enum(s)) => if s == seq!['T'] {
            Some(true)
        } else if s == seq!['F'] {
            Some(false)
        } else {
            None
        },
        _ => None,
    }
}

pub open spec fn list_of(p: Option<ParamView>) -> Option<Seq<ParamView>> {
    match p {
        Some(ParamView::List(l)) => Some(l),
        _ => None,
    }
}

/// Parameter `i` of `params`.
fn param_ref(params: &Vec<Param>, i: usize) -> (res: Option<&Param>)
    ensures
        opt_view(res) == param_at(params_view(params@), i as int),
{
    proof {
        crate::step::lemma_params_view(params@);
    }
    if i < params.len() {
        Some(&params[i])
    } else {
        None
    }
}

fn get_ref(p: Option<&Param>) -> (res: Result<u32, StepError>)
    ensures
        match res {
            Ok(r) => ref_of(opt_view(p)) == Some(r),
            Err(e) => ref_of(opt_view(p)) is None && e is Parse && parse_text(e) == "expected ref"@,
        },
{
    match p {
        Some(Param::Ref(id)) => Ok(*id),
        _ => Err(crate::step::parse_error("expected ref")),
    }
}

fn get_real(p: Option<&Param>) -> (res: Result<Vec<char>, StepError>)
    ensures
        match res {
            Ok(t) => real_of(opt_view(p)) == Some(t@),
            Err(e) => real_of(opt_view(p)) is None && e is Parse && parse_text(e) == "expected real"@,
        },
{
    match p {
        Some(Param::Real(t)) => Ok(sub_chars(t, 0, t.len())),
        _ => Err(crate::step::parse_error("expected real")),
    }
}

fn get_bool(p: Option<&Param>) -> (res: Result<bool, StepError>)
    ensures
        match res {
            Ok(b) => bool_of(opt_view(p)) == Some(b),
            Err(e) => bool_of(opt_view(p)) is None && e is Parse && parse_text(e) == "expected bool enum"@,
        },
{
    match p {
        Some(Param::Enum(s)) => {
            if s.len() == 1 && s[0] == 'T' {
                assert(s@ =~= seq!['T']);
                Ok(true)
            } else if s.len() == 1 && s[0] == 'F' {
                assert(s@ =~= seq!['F']);
                Ok(false)
            } else {
                Err(crate::step::parse_error("expected bool enum"))
            }
        },
        _ => Err(crate::step::parse_error("expected bool enum")),
    }
}

fn get_list(p: Option<&Param>) -> (res: Result<&Vec<Param>, StepError>)
    ensures
        match res {
            Ok(l) => list_of(opt_view(p)) == Some(params_view(l@)),
            Err(e) => list_of(opt_view(p)) is None && e is Parse && parse_text(e) == "expected list"@,
        },
{
    match p {
        Some(Param::List(l)) => Ok(l),
        _ => Err(crate::step::parse_error("expected list")),
    }
}

/// The ids of the instances of kind `k`, in ascending order.
pub open spec fn kind_ids(es: Seq<EntityView>, k: Seq<char>) -> Seq<u32>
    decreases es.len(),
{
    if es.len() == 0 {
        Seq::empty()
    } else if es.last().kind == k {
        kind_ids(es.drop_last(), k).push(es.last().id)
    } else {
        kind_ids(es.drop_last(), k)
    }
}

/// The instance with id `x` has kind `k`.
pub open spec fn is_kind(es: Seq<EntityView>, x: u32, k: Seq<char>) -> bool {
    match lookup(es, x) {
        Some(e) => e.kind == k,
        None => false,
    }
}

pub open spec fn ascending(ids: Seq<u32>) -> bool {
    forall|a: int, b: int| 0 <= a < b < ids.len() ==> ids[a] < ids[b]
}

/// Where `x` stands in `ids`, if it occurs.
pub open spec fn index_in(ids: Seq<u32>, x: u32) -> Option<int> {
    if exists|t: int| 0 <= t < ids.len() && ids[t] == x {
        Some(choose|t: int| 0 <= t < ids.len() && ids[t] == x)
    } else {
        None
    }
}

proof fn lemma_lookup_drop_last(es: Seq<EntityView>, x: u32)
    requires
        ids_ascending(es),
        es.len() > 0,
    ensures
        x == es.last().id ==> lookup(es, x) == Some(es.last()),
        x != es.last().id ==> lookup(es, x) == lookup(es.drop_last(), x),
{
    let d = es.drop_last();
    if x == es.last().id {
        crate::step::lemma_lookup_at(es, es.len() - 1);
    } else if exists|i: int| 0 <= i < es.len() && es[i].id == x {
        let i = choose|i: int| 0 <= i < es.len() && es[i].id == x;
        crate::step::lemma_lookup_at(es, i);
        assert(d[i] == es[i]);
        crate::step::lemma_lookup_at(d, i);
    } else {
        assert(!exists|i: int| 0 <= i < d.len() && d[i].id == x) by {
            if exists|i: int| 0 <= i < d.len() && d[i].id == x {
                let i = choose|i: int| 0 <= i < d.len() && d[i].id == x;
                assert(es[i] == d[i]);
            }
        }
    }
}

pub proof fn lemma_index_in(ids: Seq<u32>, t: int)
    requires
        ascending(ids),
        0 <= t < ids.len(),
    ensures
        index_in(ids, ids[t]) == Some(t),
{
    let u = choose|u: int| 0 <= u < ids.len() && ids[u] == ids[t];
    assert(u == t);
}

/// The ids of a kind ascend, are ids of instances of that kind, and every
/// instance of that kind is among them.
pub proof fn lemma_kind_ids(es: Seq<EntityView>, k: Seq<char>)
    requires
        ids_ascending(es),
    ensures
        kind_ids(es, k).len() <= es.len(),
        ascending(kind_ids(es, k)),
        forall|t: int| 0 <= t < kind_ids(es, k).len() ==> is_kind(es, #[trigger] kind_ids(es, k)[t], k),
        forall|x: u32| is_kind(es, x, k) ==> #[trigger] index_in(kind_ids(es, k), x) is Some,
        forall|t: int| 0 <= t < kind_ids(es, k).len() ==> exists|i: int| 0 <= i < es.len() && es[i].id == #[trigger] kind_ids(es, k)[t],
    decreases es.len(),
{
    if es.len() > 0 {
        let d = es.drop_last();
        let last = es.last();
        assert(ids_ascending(d));
        lemma_kind_ids(d, k);
        let r = kind_ids(d, k);
        assert forall|t: int| 0 <= t < r.len() implies r[t] < last.id by {
            let i = choose|i: int| 0 <= i < d.len() && d[i].id == r[t];
            assert(es[i] == d[i]);
        }
        assert forall|x: u32| #[trigger] is_kind(d, x, k) && x != last.id implies is_kind(es, x, k) by {
            lemma_lookup_drop_last(es, x);
        }
        if last.kind == k {
            let ids = r.push(last.id);
            assert(kind_ids(es, k) == ids);
            assert forall|t: int| 0 <= t < ids.len() implies is_kind(es, #[trigger] ids[t], k) by {
                lemma_lookup_drop_last(es, ids[t]);
                if t < r.len() {
                    assert(ids[t] == r[t]);
                    assert(is_kind(d, r[t], k));
                }
            }
            assert forall|x: u32| is_kind(es, x, k) implies #[trigger] index_in(ids, x) is Some by {
                lemma_lookup_drop_last(es, x);
                if x == last.id {
                    assert(ids[ids.len() - 1] == x);
                } else {
                    assert(index_in(r, x) is Some);
                    let t = choose|t: int| 0 <= t < r.len() && r[t] == x;
                    assert(ids[t] == x);
                }
            }
            assert forall|t: int| 0 <= t < ids.len() implies exists|i: int| 0 <= i < es.len() && es[i].id == #[trigger] ids[t] by {
                if t < r.len() {
                    assert(ids[t] == r[t]);
                    let i = choose|i: int| 0 <= i < d.len() && d[i].id == r[t];
                    assert(es[i] == d[i]);
                } else {
                    assert(es[es.len() - 1].id == ids[t]);
                }
            }
        } else {
            assert(kind_ids(es, k) == r);
            assert forall|t: int| 0 <= t < r.len() implies is_kind(es, #[trigger] r[t], k) by {
                assert(is_kind(d, r[t], k));
                lemma_lookup_drop_last(es, r[t]);
            }
            assert forall|x: u32| is_kind(es, x, k) implies #[trigger] index_in(r, x) is Some by {
                lemma_lookup_drop_last(es, x);
            }
            assert forall|t: int| 0 <= t < r.len() implies exists|i: int| 0 <= i < es.len() && es[i].id == #[trigger] r[t] by {
                let i = choose|i: int| 0 <= i < d.len() && d[i].id == r[t];
                assert(es[i] == d[i]);
            }
        }
    }
}

/// The ids of the instances of kind `kind`, in ascending order.
fn kind_ids_of(map: &EntityMap, kind: &str) -> (res: Vec<u32>)
    requires
        map.wf(),
    ensures
        res@ == kind_ids(map@, kind@),
{
    let mut ids: Vec<u32> = Vec::new();
    let mut i: usize = 0;
    while i < map.entries.len()
        invariant
            i <= map@.len(),
            ids@ == kind_ids(map@.take(i as int), kind@),
        decreases map@.len() - i,
    {
        proof {
            assert(map@.take(i + 1).drop_last() =~= map@.take(i as int));
            assert(map@.take(i + 1).last() == map@[i as int]);
        }
        if crate::step::is_text(&map.entries[i].kind, kind) {
            ids.push(map.entries[i].id);
        }
        i = i + 1;
    }
    assert(map@.take(map@.len() as int) =~= map@);
    ids
}

/// `index` maps each of the ids `ids` to where it stands, and nothing else.
pub open spec fn indexes(index: Map<u32, usize>, ids: Seq<u32>) -> bool {
    &&& forall|x: u32| #[trigger] index.contains_key(x) <==> index_in(ids, x) is Some
    &&& forall|x: u32| index.contains_key(x) ==> index_in(ids, x) == Some(#[trigger] index[x] as int)
}

/// The map from each of the ascending `ids` to where it stands.
fn index_map(ids: &Vec<u32>) -> (res: HashMap<u32, usize>)
    requires
        ascending(ids@),
    ensures
        indexes(res@, ids@),
{
    let mut index: HashMap<u32, usize> = HashMap::new();
    let mut t: usize = 0;
    while t < ids.len()
        invariant
            ascending(ids@),
            t <= ids@.len(),
            forall|x: u32| #[trigger] index@.contains_key(x) ==> 0 <= index@[x] < t && ids@[index@[x] as int] == x,
            forall|u: int| 0 <= u < t ==> #[trigger] index@.contains_key(ids@[u]),
        decreases ids@.len() - t,
    {
        index.insert(ids[t], t);
        t = t + 1;
    }
    proof {
        assert forall|x: u32| #[trigger] index@.contains_key(x) <==> index_in(ids@, x) is Some by {
            if index_in(ids@, x) is Some {
                let u = choose|u: int| 0 <= u < ids@.len() && ids@[u] == x;
                assert(index@.contains_key(ids@[u]));
            }
        }
        assert forall|x: u32| index@.contains_key(x) implies index_in(ids@, x) == Some(
            #[trigger] index@[x] as int,
        ) by {
            lemma_index_in(ids@, index@[x] as int);
        }
    }
    index
}

/// Where `x` stands in the ids that `index` was made from.
fn index_of(index: &HashMap<u32, usize>, Ghost(ids): Ghost<Seq<u32>>, x: u32) -> (res: Option<usize>)
    requires
        indexes(index@, ids),
    ensures
        match res {
            Some(t) => t < ids.len() && ids[t as int] == x && index_in(ids, x) == Some(t as int),
            None => index_in(ids, x) is None,
        },
{
    match index.get(&x) {
        Some(t) => {
            assert(index@.contains_key(x));
            assert(index_in(ids, x) == Some(*t as int));
            assert(exists|u: int| 0 <= u < ids.len() && ids[u] == x);
            Some(*t)
        },
        None => None,
    }
}

pub open spec fn point_view(p: StepPoint) -> (Seq<char>, Seq<char>, Seq<char>) {
    (p.x@, p.y@, p.z@)
}

/// The coordinates of a `CARTESIAN_POINT('', (x, y, z))`.
pub open spec fn point_of(e: EntityView) -> Option<(Seq<char>, Seq<char>, Seq<char>)> {
    match list_of(param_at(e.params, 1)) {
        Some(c) => match (real_of(param_at(c, 0)), real_of(param_at(c, 1)), real_of(param_at(c, 2))) {
            (Some(x), Some(y), Some(z)) => Some((x, y, z)),
            _ => None,
        },
        None => None,
    }
}

/// Every `CARTESIAN_POINT` has its coordinates.
pub open spec fn points_ok(es: Seq<EntityView>) -> bool {
    forall|i: int|
        0 <= i < es.len() && es[i].kind == "CARTESIAN_POINT"@ ==> (#[trigger] point_of(es[i])) is Some
}

/// The coordinates of the `CARTESIAN_POINT` with id `x`.
pub open spec fn point_at(es: Seq<EntityView>, x: u32) -> Option<(Seq<char>, Seq<char>, Seq<char>)> {
    match lookup(es, x) {
        Some(e) => if e.kind == "CARTESIAN_POINT"@ {
            point_of(e)
        } else {
            None
        },
        None => None,
    }
}

fn read_point(e: &crate::step::Entity) -> (res: Result<StepPoint, StepError>)
    ensures
        match res {
            Ok(p) => point_of(e@) == Some(point_view(p)) && point_problem(e@) is None,
            Err(err) => point_of(e@) is None && err is Parse && point_problem(e@) == Some(
                parse_text(err),
            ),
        },
{
    let coords = get_list(param_ref(&e.params, 1))?;
    let x = get_real(param_ref(coords, 0))?;
    let y = get_real(param_ref(coords, 1))?;
    let z = get_real(param_ref(coords, 2))?;
    Ok(StepPoint { x, y, z })
}

/// Checks that every `CARTESIAN_POINT` has its coordinates.
fn check_points(map: &EntityMap) -> (res: Result<(), StepError>)
    requires
        map.wf(),
    ensures
        res is Ok <==> points_ok(map@),
        match res {
            Ok(_) => first_entity_error(map@, 0, point_errors()) is None,
            Err(e) => e is Parse && first_entity_error(map@, 0, point_errors()) == Some(
                parse_text(e),
            ),
        },
{
    let mut i: usize = 0;
    while i < map.entries.len()
        invariant
            i <= map@.len(),
            forall|j: int|
                0 <= j < i && map@[j].kind == "CARTESIAN_POINT"@ ==> (#[trigger] point_of(map@[j])) is Some,
            first_entity_error(map@, i as int, point_errors()) == first_entity_error(
                map@,
                0,
                point_errors(),
            ),
        decreases map@.len() - i,
    {
        assert(map@[i as int] == map.entries@[i as int]@);
        if crate::step::is_text(&map.entries[i].kind, "CARTESIAN_POINT") {
            match read_point(&map.entries[i]) {
                Ok(_) => {},
                Err(e) => {
                    return Err(e);
                },
            }
        }
        i = i + 1;
    }
    Ok(())
}

/// The message for the first of the instances of `es` from index `i` on
/// that `f` finds fault with.
pub open spec fn first_entity_error(
    es: Seq<EntityView>,
    i: int,
    f: spec_fn(EntityView) -> Option<Seq<char>>,
) -> Option<Seq<char>>
    decreases es.len() - i,
{
    if !(0 <= i < es.len()) {
        None
    } else if f(es[i]) is Some {
        f(es[i])
    } else {
        first_entity_error(es, i + 1, f)
    }
}

/// The message for the first of the ids `ids` from index `t` on that `f`
/// finds fault with.
pub open spec fn first_id_error(ids: Seq<u32>, t: int, f: spec_fn(u32) -> Option<Seq<char>>) -> Option<
    Seq<char>,
>
    decreases ids.len() - t,
{
    if !(0 <= t < ids.len()) {
        None
    } else if f(ids[t]) is Some {
        f(ids[t])
    } else {
        first_id_error(ids, t + 1, f)
    }
}

/// What is wrong with the coordinates of a `CARTESIAN_POINT`, if anything.
pub open spec fn point_problem(e: EntityView) -> Option<Seq<char>> {
    match list_of(param_at(e.params, 1)) {
        None => Some("expected list"@),
        Some(c) => if real_of(param_at(c, 0)) is None || real_of(param_at(c, 1)) is None || real_of(
            param_at(c, 2),
        ) is None {
            Some("expected real"@)
        } else {
            None
        },
    }
}

/// `point_problem` of each `CARTESIAN_POINT`.
pub open spec fn point_errors() -> spec_fn(EntityView) -> Option<Seq<char>> {
    |e: EntityView| if e.kind == "CARTESIAN_POINT"@ {
        point_problem(e)
    } else {
        None
    }
}

/// The `CARTESIAN_POINT` that the `VERTEX_POINT` with id `x` refers to.
pub open spec fn vertex_target(es: Seq<EntityView>, x: u32) -> Option<u32> {
    match lookup(es, x) {
        Some(e) => ref_of(param_at(e.params, 1)),
        None => None,
    }
}

/// Every `VERTEX_POINT('', #point)` refers to a `CARTESIAN_POINT`.
pub open spec fn vertices_ok(es: Seq<EntityView>) -> bool {
    let vp = kind_ids(es, "VERTEX_POINT"@);
    forall|t: int|
        0 <= t < vp.len() ==> match vertex_target(es, #[trigger] vp[t]) {
            Some(c) => point_at(es, c) is Some,
            None => false,
        }
}

/// The position of vertex `t`: the point of the `t`-th `VERTEX_POINT` by id.
pub open spec fn vertex_position(es: Seq<EntityView>, t: int) -> (Seq<char>, Seq<char>, Seq<char>) {
    point_at(es, vertex_target(es, kind_ids(es, "VERTEX_POINT"@)[t]).unwrap()).unwrap()
}

/// What is wrong with the `VERTEX_POINT` with id `x`, if anything.
pub open spec fn vertex_error(es: Seq<EntityView>, x: u32) -> Option<Seq<char>> {
    match vertex_target(es, x) {
        None => Some("expected ref"@),
        Some(c) => if point_at(es, c) is None {
            Some("missing CARTESIAN_POINT #"@ + decimal_text(c as nat))
        } else {
            None
        },
    }
}

/// `vertex_error` as a function of the id.
pub open spec fn vertex_errors(es: Seq<EntityView>) -> spec_fn(u32) -> Option<Seq<char>> {
    |x: u32| vertex_error(es, x)
}

/// The vertices, one per `VERTEX_POINT` in ascending order of id.
fn build_vertices(map: &EntityMap, vp: &Vec<u32>) -> (res: Result<Vec<Vertex<StepPoint>>, StepError>)
    requires
        map.wf(),
        points_ok(map@),
        vp@ == kind_ids(map@, "VERTEX_POINT"@),
    ensures
        match res {
            Ok(v) => vertices_ok(map@) && v@.len() == vp@.len() && (forall|t: int|
                0 <= t < v@.len() ==> point_view(#[trigger] v@[t].position) == vertex_position(
                    map@,
                    t,
                )) && first_id_error(vp@, 0, vertex_errors(map@)) is None,
            Err(e) => !vertices_ok(map@) && e is Parse && first_id_error(
                vp@,
                0,
                vertex_errors(map@),
            ) == Some(parse_text(e)),
        },
{
    proof {
        lemma_kind_ids(map@, "VERTEX_POINT"@);
    }
    let mut vertices: Vec<Vertex<StepPoint>> = Vec::new();
    let mut t: usize = 0;
    while t < vp.len()
        invariant
            map.wf(),
            points_ok(map@),
            first_id_error(vp@, t as int, vertex_errors(map@)) == first_id_error(
                vp@,
                0,
                vertex_errors(map@),
            ),
            vp@ == kind_ids(map@, "VERTEX_POINT"@),
            t <= vp@.len(),
            vertices@.len() == t,
            forall|u: int|
                0 <= u < t ==> match vertex_target(map@, #[trigger] vp@[u]) {
                    Some(c) => point_at(map@, c) is Some,
                    None => false,
                },
            forall|u: int|
                0 <= u < t ==> point_view(#[trigger] vertices@[u].position) == vertex_position(
                    map@,
                    u,
                ),
        decreases vp@.len() - t,
    {
        proof {
            lemma_kind_ids(map@, "VERTEX_POINT"@);
        }
        assert(is_kind(map@, vp@[t as int], "VERTEX_POINT"@));
        let i = match map.find(vp[t]) {
            Some(i) => i,
            None => {
                return Err(crate::step::parse_error_num("missing VERTEX_POINT #", vp[t] as u64));
            },
        };
        assert(map@[i as int] == map.entries@[i as int]@);
        let c = match get_ref(param_ref(&map.entries[i].params, 1)) {
            Ok(c) => c,
            Err(e) => {
                return Err(e);
            },
        };
        let j = match map.find(c) {
            Some(j) => j,
            None => {
                return Err(crate::step::parse_error_num("missing CARTESIAN_POINT #", c as u64));
            },
        };
        assert(map@[j as int] == map.entries@[j as int]@);
        if !crate::step::is_text(&map.entries[j].kind, "CARTESIAN_POINT") {
            return Err(crate::step::parse_error_num("missing CARTESIAN_POINT #", c as u64));
        }
        let p = match read_point(&map.entries[j]) {
            Ok(p) => p,
            Err(e) => {
                return Err(e);
            },
        };
        vertices.push(Vertex { position: p });
        t = t + 1;
    }
    Ok(vertices)
}

/// The vertex indices of the ends of the `EDGE_CURVE('', #start, #end, ..)`
/// with id `x`.
pub open spec fn edge_ends(es: Seq<EntityView>, x: u32) -> Option<(int, int)> {
    let vp = kind_ids(es, "VERTEX_POINT"@);
    match lookup(es, x) {
        Some(e) => match (ref_of(param_at(e.params, 1)), ref_of(param_at(e.params, 2))) {
            (Some(a), Some(b)) => match (index_in(vp, a), index_in(vp, b)) {
                (Some(i), Some(j)) => Some((i, j)),
                _ => None,
            },
            _ => None,
        },
        None => None,
    }
}

/// Every `EDGE_CURVE` runs between two `VERTEX_POINT`s.
pub open spec fn edges_ok(es: Seq<EntityView>) -> bool {
    let ec = kind_ids(es, "EDGE_CURVE"@);
    forall|t: int| 0 <= t < ec.len() ==> (#[trigger] edge_ends(es, ec[t])) is Some
}

/// What is wrong with the `EDGE_CURVE` with id `x`, if anything.
pub open spec fn edge_error(es: Seq<EntityView>, x: u32) -> Option<Seq<char>> {
    let vp = kind_ids(es, "VERTEX_POINT"@);
    match lookup(es, x) {
        Some(e) => match (ref_of(param_at(e.params, 1)), ref_of(param_at(e.params, 2))) {
            (Some(a), Some(b)) => if index_in(vp, a) is None {
                Some("missing VERTEX_POINT #"@ + decimal_text(a as nat))
            } else if index_in(vp, b) is None {
                Some("missing VERTEX_POINT #"@ + decimal_text(b as nat))
            } else {
                None
            },
            _ => Some("expected ref"@),
        },
        None => Some("missing EDGE_CURVE #"@ + decimal_text(x as nat)),
    }
}

/// `edge_error` as a function of the id.
pub open spec fn edge_errors(es: Seq<EntityView>) -> spec_fn(u32) -> Option<Seq<char>> {
    |x: u32| edge_error(es, x)
}

/// The edges, one per `EDGE_CURVE` in ascending order of id, with no
/// oriented edge yet.
#[verifier::rlimit(40)]
fn build_edges(map: &EntityMap, vp: &Vec<u32>, vp_index: &HashMap<u32, usize>, ec: &Vec<u32>) -> (res: Result<
    Vec<Edge>,
    StepError,
>)
    requires
        indexes(vp_index@, vp@),
        map.wf(),
        map@.len() < u32::MAX,
        vp@ == kind_ids(map@, "VERTEX_POINT"@),
        ec@ == kind_ids(map@, "EDGE_CURVE"@),
    ensures
        match res {
            Ok(v) => edges_ok(map@) && v@.len() == ec@.len() && (forall|t: int|
                0 <= t < v@.len() ==> {
                    let ends = edge_ends(map@, ec@[t]).unwrap();
                    &&& (#[trigger] v@[t]).vertices[0].0 == ends.0
                    &&& v@[t].vertices[1].0 == ends.1
                    &&& v@[t].oriented_edges[0].0 == u32::MAX
                    &&& v@[t].oriented_edges[1].0 == u32::MAX
                }) && first_id_error(ec@, 0, edge_errors(map@)) is None,
            Err(e) => !edges_ok(map@) && e is Parse && first_id_error(ec@, 0, edge_errors(map@))
                == Some(parse_text(e)),
        },
{
    let mut edges: Vec<Edge> = Vec::new();
    let mut t: usize = 0;
    while t < ec.len()
        invariant
            indexes(vp_index@, vp@),
            map.wf(),
            first_id_error(ec@, t as int, edge_errors(map@)) == first_id_error(
                ec@,
                0,
                edge_errors(map@),
            ),
            map@.len() < u32::MAX,
            vp@ == kind_ids(map@, "VERTEX_POINT"@),
            ec@ == kind_ids(map@, "EDGE_CURVE"@),
            t <= ec@.len(),
            edges@.len() == t,
            forall|u: int| 0 <= u < t ==> (#[trigger] edge_ends(map@, ec@[u])) is Some,
            forall|u: int|
                0 <= u < t ==> {
                    let ends = edge_ends(map@, ec@[u]).unwrap();
                    &&& (#[trigger] edges@[u]).vertices[0].0 == ends.0
                    &&& edges@[u].vertices[1].0 == ends.1
                    &&& edges@[u].oriented_edges[0].0 == u32::MAX
                    &&& edges@[u].oriented_edges[1].0 == u32::MAX
                },
        decreases ec@.len() - t,
    {
        proof {
            lemma_kind_ids(map@, "EDGE_CURVE"@);
            lemma_kind_ids(map@, "VERTEX_POINT"@);
        }
        assert(is_kind(map@, ec@[t as int], "EDGE_CURVE"@));
        let i = match map.find(ec[t]) {
            Some(i) => i,
            None => {
                return Err(crate::step::parse_error_num("missing EDGE_CURVE #", ec[t] as u64));
            },
        };
        assert(map@[i as int] == map.entries@[i as int]@);
        let vs = match get_ref(param_ref(&map.entries[i].params, 1)) {
            Ok(r) => r,
            Err(e) => {
                assert(edge_ends(map@, ec@[t as int]) is None);
                return Err(e);
            },
        };
        let ve = match get_ref(param_ref(&map.entries[i].params, 2)) {
            Ok(r) => r,
            Err(e) => {
                assert(edge_ends(map@, ec@[t as int]) is None);
                return Err(e);
            },
        };
        let v0 = match index_of(vp_index, Ghost(vp@), vs) {
            Some(v) => v,
            None => {
                return Err(crate::step::parse_error_num("missing VERTEX_POINT #", vs as u64));
            },
        };
        let v1 = match index_of(vp_index, Ghost(vp@), ve) {
            Some(v) => v,
            None => {
                return Err(crate::step::parse_error_num("missing VERTEX_POINT #", ve as u64));
            },
        };
        edges.push(
            Edge {
                vertices: [VertexId::new(v0), VertexId::new(v1)],
                oriented_edges: [OrientedEdgeId::invalid(), OrientedEdgeId::invalid()],
            },
        );
        t = t + 1;
    }
    Ok(edges)
}

/// The edge index and direction of the `ORIENTED_EDGE('', *, *, #edge, .T.)`
/// with id `x`.
pub open spec fn oe_parts(es: Seq<EntityView>, x: u32) -> Option<(int, bool)> {
    let ec = kind_ids(es, "EDGE_CURVE"@);
    match lookup(es, x) {
        Some(e) => match (ref_of(param_at(e.params, 3)), bool_of(param_at(e.params, 4))) {
            (Some(c), Some(f)) => match index_in(ec, c) {
                Some(j) => Some((j, f)),
                None => None,
            },
            _ => None,
        },
        None => None,
    }
}

/// Every `ORIENTED_EDGE` runs along an `EDGE_CURVE`, in a stated direction.
pub open spec fn oes_ok(es: Seq<EntityView>) -> bool {
    let oe = kind_ids(es, "ORIENTED_EDGE"@);
    forall|k: int| 0 <= k < oe.len() ==> (#[trigger] oe_parts(es, oe[k])) is Some
}

/// What is wrong with the `ORIENTED_EDGE` with id `x`, if anything.
pub open spec fn oe_error(es: Seq<EntityView>, x: u32) -> Option<Seq<char>> {
    let ec = kind_ids(es, "EDGE_CURVE"@);
    match lookup(es, x) {
        Some(e) => match ref_of(param_at(e.params, 3)) {
            Some(c) => if bool_of(param_at(e.params, 4)) is None {
                Some("expected bool enum"@)
            } else if index_in(ec, c) is None {
                Some("missing EDGE_CURVE #"@ + decimal_text(c as nat))
            } else {
                None
            },
            None => Some("expected ref"@),
        },
        None => Some("missing ORIENTED_EDGE #"@ + decimal_text(x as nat)),
    }
}

/// `oe_error` as a function of the id.
pub open spec fn oe_errors(es: Seq<EntityView>) -> spec_fn(u32) -> Option<Seq<char>> {
    |x: u32| oe_error(es, x)
}

/// The last of the first `n` oriented edges that runs along edge `j` in
/// direction `forward`, or -1.
pub open spec fn last_oe(es: Seq<EntityView>, n: int, j: int, forward: bool) -> int
    decreases n,
{
    if n <= 0 {
        -1
    } else if oe_parts(es, kind_ids(es, "ORIENTED_EDGE"@)[n - 1]) == Some((j, forward)) {
        n - 1
    } else {
        last_oe(es, n - 1, j, forward)
    }
}

/// The id stored for index `k`; -1 stands for none.
pub open spec fn slot_id(k: int) -> u32 {
    if k < 0 {
        u32::MAX
    } else {
        k as u32
    }
}

proof fn lemma_last_oe_bounds(es: Seq<EntityView>, n: int, j: int, forward: bool)
    ensures
        -1 <= last_oe(es, n, j, forward) < n || (n <= 0 && last_oe(es, n, j, forward) == -1),
    decreases n,
{
    if n > 0 {
        lemma_last_oe_bounds(es, n - 1, j, forward);
    }
}

/// The oriented edges, one per `ORIENTED_EDGE` in ascending order of id, with
/// no face yet; each edge's slot for a direction holds the last oriented edge
/// along it in that direction.
fn build_oriented_edges(
    map: &EntityMap,
    ec: &Vec<u32>,
    ec_index: &HashMap<u32, usize>,
    oe: &Vec<u32>,
    edges: &mut Vec<Edge>,
) -> (res: Result<Vec<OrientedEdge>, StepError>)
    requires
        indexes(ec_index@, ec@),
        map.wf(),
        map@.len() < u32::MAX,
        ec@ == kind_ids(map@, "EDGE_CURVE"@),
        oe@ == kind_ids(map@, "ORIENTED_EDGE"@),
        old(edges)@.len() == ec@.len(),
        forall|j: int|
            0 <= j < ec@.len() ==> (#[trigger] old(edges)@[j]).oriented_edges[0].0 == u32::MAX
                && old(edges)@[j].oriented_edges[1].0 == u32::MAX,
    ensures
        final(edges)@.len() == old(edges)@.len(),
        forall|j: int|
            0 <= j < ec@.len() ==> (#[trigger] final(edges)@[j]).vertices == old(edges)@[j].vertices,
        match res {
            Ok(v) => {
                &&& oes_ok(map@)
                &&& v@.len() == oe@.len()
                &&& forall|k: int|
                    0 <= k < v@.len() ==> {
                        let parts = oe_parts(map@, oe@[k]).unwrap();
                        &&& (#[trigger] v@[k]).edge.0 == parts.0
                        &&& v@[k].forward == parts.1
                        &&& v@[k].face.0 == u32::MAX
                    }
                &&& forall|j: int|
                    0 <= j < ec@.len() ==> {
                        let ed = #[trigger] final(edges)@[j];
                        &&& ed.oriented_edges[0].0 == slot_id(last_oe(map@, oe@.len() as int, j, true))
                        &&& ed.oriented_edges[1].0 == slot_id(last_oe(map@, oe@.len() as int, j, false))
                    }
                &&& first_id_error(oe@, 0, oe_errors(map@)) is None
            },
            Err(e) => !oes_ok(map@) && e is Parse && first_id_error(oe@, 0, oe_errors(map@)) == Some(
                parse_text(e),
            ),
        },
{
    let mut oriented: Vec<OrientedEdge> = Vec::new();
    let mut k: usize = 0;
    proof {
        lemma_kind_ids(map@, "ORIENTED_EDGE"@);
    }
    while k < oe.len()
        invariant
            indexes(ec_index@, ec@),
            map.wf(),
            map@.len() < u32::MAX,
            first_id_error(oe@, k as int, oe_errors(map@)) == first_id_error(oe@, 0, oe_errors(map@)),
            ec@ == kind_ids(map@, "EDGE_CURVE"@),
            oe@ == kind_ids(map@, "ORIENTED_EDGE"@),
            oe@.len() <= map@.len(),
            k <= oe@.len(),
            oriented@.len() == k,
            edges@.len() == old(edges)@.len() == ec@.len(),
            forall|j: int|
                0 <= j < ec@.len() ==> (#[trigger] edges@[j]).vertices == old(edges)@[j].vertices,
            forall|u: int| 0 <= u < k ==> (#[trigger] oe_parts(map@, oe@[u])) is Some,
            forall|u: int|
                0 <= u < k ==> {
                    let parts = oe_parts(map@, oe@[u]).unwrap();
                    &&& (#[trigger] oriented@[u]).edge.0 == parts.0
                    &&& oriented@[u].forward == parts.1
                    &&& oriented@[u].face.0 == u32::MAX
                },
            forall|j: int|
                0 <= j < ec@.len() ==> (#[trigger] edges@[j]).oriented_edges[0].0 == slot_id(
                    last_oe(map@, k as int, j, true),
                ) && edges@[j].oriented_edges[1].0 == slot_id(last_oe(map@, k as int, j, false)),
        decreases oe@.len() - k,
    {
        proof {
            lemma_kind_ids(map@, "ORIENTED_EDGE"@);
            lemma_kind_ids(map@, "EDGE_CURVE"@);
        }
        assert(is_kind(map@, oe@[k as int], "ORIENTED_EDGE"@));
        let i = match map.find(oe[k]) {
            Some(i) => i,
            None => {
                return Err(crate::step::parse_error_num("missing ORIENTED_EDGE #", oe[k] as u64));
            },
        };
        assert(map@[i as int] == map.entries@[i as int]@);
        let c = match get_ref(param_ref(&map.entries[i].params, 3)) {
            Ok(r) => r,
            Err(e) => {
                assert(oe_parts(map@, oe@[k as int]) is None);
                return Err(e);
            },
        };
        let forward = match get_bool(param_ref(&map.entries[i].params, 4)) {
            Ok(b) => b,
            Err(e) => {
                assert(oe_parts(map@, oe@[k as int]) is None);
                return Err(e);
            },
        };
        let j = match index_of(ec_index, Ghost(ec@), c) {
            Some(j) => j,
            None => {
                return Err(crate::step::parse_error_num("missing EDGE_CURVE #", c as u64));
            },
        };
        let id = OrientedEdgeId::new(k);
        oriented.push(OrientedEdge { edge: EdgeId::new(j), forward, face: FaceId::invalid() });
        let mut edge = edges[j];
        if forward {
            edge.oriented_edges = [id, edge.oriented_edges[1]];
        } else {
            edge.oriented_edges = [edge.oriented_edges[0], id];
        }
        let ghost before = edges@;
        edges.set(j, edge);
        proof {
            assert forall|jj: int| 0 <= jj < ec@.len() implies (#[trigger] edges@[jj]).oriented_edges[0].0
                == slot_id(last_oe(map@, k + 1, jj, true)) && edges@[jj].oriented_edges[1].0
                == slot_id(last_oe(map@, k + 1, jj, false)) by {
                if jj != j {
                    assert(edges@[jj] == before[jj]);
                }
            }
        }
        k = k + 1;
    }
    Ok(oriented)
}

/// The oriented edge that an entry of an edge loop refers to.
pub open spec fn loop_item(es: Seq<EntityView>, p: ParamView) -> Option<int> {
    match p {
        ParamView::Ref(r) => index_in(kind_ids(es, "ORIENTED_EDGE"@), r),
        _ => None,
    }
}

/// The oriented edges of the `EDGE_LOOP('', (#oe, ..))` instance `e`.
pub open spec fn loop_of(es: Seq<EntityView>, e: EntityView) -> Option<Seq<OrientedEdgeId>> {
    match list_of(param_at(e.params, 1)) {
        Some(l) => if forall|t: int| 0 <= t < l.len() ==> (#[trigger] loop_item(es, l[t])) is Some {
            Some(Seq::new(l.len(), |t: int| OrientedEdgeId(loop_item(es, l[t]).unwrap() as u32)))
        } else {
            None
        },
        None => None,
    }
}

/// Every `EDGE_LOOP` is a list of `ORIENTED_EDGE`s.
pub open spec fn loops_ok(es: Seq<EntityView>) -> bool {
    forall|i: int|
        0 <= i < es.len() && es[i].kind == "EDGE_LOOP"@ ==> (#[trigger] loop_of(es, es[i])) is Some
}

/// What is wrong with the entries of an edge loop from index `t` on, if
/// anything.
pub open spec fn loop_items_error(es: Seq<EntityView>, l: Seq<ParamView>, t: int) -> Option<Seq<char>>
    decreases l.len() - t,
{
    if !(0 <= t < l.len()) {
        None
    } else {
        match l[t] {
            ParamView::Ref(r) => if index_in(kind_ids(es, "ORIENTED_EDGE"@), r) is None {
                Some("missing ORIENTED_EDGE #"@ + decimal_text(r as nat))
            } else {
                loop_items_error(es, l, t + 1)
            },
            _ => Some("expected ref"@),
        }
    }
}

/// What is wrong with the `EDGE_LOOP` instance `e`, if anything.
pub open spec fn loop_problem(es: Seq<EntityView>, e: EntityView) -> Option<Seq<char>> {
    match list_of(param_at(e.params, 1)) {
        Some(l) => loop_items_error(es, l, 0),
        None => Some("expected list"@),
    }
}

/// `loop_problem` of each `EDGE_LOOP`.
pub open spec fn loop_errors(es: Seq<EntityView>) -> spec_fn(EntityView) -> Option<Seq<char>> {
    |e: EntityView| if e.kind == "EDGE_LOOP"@ {
        loop_problem(es, e)
    } else {
        None
    }
}

/// Reads the oriented edges of an `EDGE_LOOP`.
fn read_loop(
    map: &EntityMap,
    e: &crate::step::Entity,
    oe: &Vec<u32>,
    oe_index: &HashMap<u32, usize>,
) -> (res: Result<Vec<OrientedEdgeId>, StepError>)
    requires
        indexes(oe_index@, oe@),
        map.wf(),
        map@.len() < u32::MAX,
        oe@ == kind_ids(map@, "ORIENTED_EDGE"@),
    ensures
        match res {
            Ok(v) => loop_of(map@, e@) == Some(v@) && (forall|u: int|
                0 <= u < v@.len() ==> (#[trigger] v@[u]).0 < oe@.len()) && loop_problem(map@, e@)
                is None,
            Err(err) => loop_of(map@, e@) is None && err is Parse && loop_problem(map@, e@) == Some(
                parse_text(err),
            ),
        },
{
    proof {
        lemma_kind_ids(map@, "ORIENTED_EDGE"@);
    }
    let list = get_list(param_ref(&e.params, 1))?;
    let ghost l = params_view(list@);
    proof {
        crate::step::lemma_params_view(list@);
    }
    let mut ids: Vec<OrientedEdgeId> = Vec::new();
    let mut t: usize = 0;
    while t < list.len()
        invariant
            indexes(oe_index@, oe@),
            l == params_view(list@),
            list_of(param_at(e@.params, 1)) == Some(l),
            ascending(oe@),
            loop_items_error(map@, l, t as int) == loop_items_error(map@, l, 0),
            l.len() == list@.len(),
            forall|u: int| 0 <= u < l.len() ==> #[trigger] l[u] == list@[u]@,
            oe@ == kind_ids(map@, "ORIENTED_EDGE"@),
            oe@.len() <= map@.len() < u32::MAX,
            t <= l.len(),
            ids@.len() == t,
            forall|u: int| 0 <= u < t ==> (#[trigger] loop_item(map@, l[u])) is Some,
            forall|u: int|
                0 <= u < t ==> (#[trigger] ids@[u]) == OrientedEdgeId(
                    loop_item(map@, l[u]).unwrap() as u32,
                ),
            forall|u: int| 0 <= u < t ==> (#[trigger] ids@[u]).0 < oe@.len(),
        decreases l.len() - t,
    {
        let r = match get_ref(Some(&list[t])) {
            Ok(r) => r,
            Err(err) => {
                assert(loop_item(map@, l[t as int]) is None);
                return Err(err);
            },
        };
        let k = match index_of(oe_index, Ghost(oe@), r) {
            Some(k) => k,
            None => {
                assert(loop_item(map@, l[t as int]) is None);
                return Err(crate::step::parse_error_num("missing ORIENTED_EDGE #", r as u64));
            },
        };
        ids.push(OrientedEdgeId::new(k));
        t = t + 1;
    }
    assert(ids@ =~= Seq::new(l.len(), |u: int| OrientedEdgeId(loop_item(map@, l[u]).unwrap() as u32)));
    Ok(ids)
}

/// Checks that every `EDGE_LOOP` is a list of `ORIENTED_EDGE`s.
fn check_loops(map: &EntityMap, oe: &Vec<u32>, oe_index: &HashMap<u32, usize>) -> (res: Result<(), StepError>)
    requires
        indexes(oe_index@, oe@),
        map.wf(),
        map@.len() < u32::MAX,
        oe@ == kind_ids(map@, "ORIENTED_EDGE"@),
    ensures
        res is Ok <==> loops_ok(map@),
        match res {
            Ok(_) => first_entity_error(map@, 0, loop_errors(map@)) is None,
            Err(e) => e is Parse && first_entity_error(map@, 0, loop_errors(map@)) == Some(
                parse_text(e),
            ),
        },
{
    let mut i: usize = 0;
    while i < map.entries.len()
        invariant
            indexes(oe_index@, oe@),
            map.wf(),
            map@.len() < u32::MAX,
            oe@ == kind_ids(map@, "ORIENTED_EDGE"@),
            i <= map@.len(),
            first_entity_error(map@, i as int, loop_errors(map@)) == first_entity_error(
                map@,
                0,
                loop_errors(map@),
            ),
            forall|j: int|
                0 <= j < i && map@[j].kind == "EDGE_LOOP"@ ==> (#[trigger] loop_of(map@, map@[j])) is Some,
        decreases map@.len() - i,
    {
        assert(map@[i as int] == map.entries@[i as int]@);
        if crate::step::is_text(&map.entries[i].kind, "EDGE_LOOP") {
            match read_loop(map, &map.entries[i], oe, oe_index) {
                Ok(_) => {},
                Err(e) => {
                    return Err(e);
                },
            }
        }
        i = i + 1;
    }
    Ok(())
}

pub open spec fn is_bound_kind(k: Seq<char>) -> bool {
    k == "FACE_BOUND"@ || k == "FACE_OUTER_BOUND"@
}

/// The loop that a `FACE_BOUND('', #loop, ..)` refers to.
pub open spec fn bound_target(e: EntityView) -> Option<u32> {
    ref_of(param_at(e.params, 1))
}

/// Every `FACE_BOUND` and `FACE_OUTER_BOUND` refers to something.
pub open spec fn bounds_ok(es: Seq<EntityView>) -> bool {
    forall|i: int|
        0 <= i < es.len() && is_bound_kind(es[i].kind) ==> (#[trigger] bound_target(es[i])) is Some
}

/// A face bound that does not refer to anything.
pub open spec fn bound_errors() -> spec_fn(EntityView) -> Option<Seq<char>> {
    |e: EntityView| if is_bound_kind(e.kind) && bound_target(e) is None {
        Some("expected ref"@)
    } else {
        None
    }
}

/// Checks that every face bound refers to something.
fn check_bounds(map: &EntityMap) -> (res: Result<(), StepError>)
    requires
        map.wf(),
    ensures
        res is Ok <==> bounds_ok(map@),
        match res {
            Ok(_) => first_entity_error(map@, 0, bound_errors()) is None,
            Err(e) => e is Parse && first_entity_error(map@, 0, bound_errors()) == Some(parse_text(e)),
        },
{
    let mut i: usize = 0;
    while i < map.entries.len()
        invariant
            i <= map@.len(),
            first_entity_error(map@, i as int, bound_errors()) == first_entity_error(
                map@,
                0,
                bound_errors(),
            ),
            forall|j: int|
                0 <= j < i && is_bound_kind(map@[j].kind) ==> (#[trigger] bound_target(map@[j])) is Some,
        decreases map@.len() - i,
    {
        assert(map@[i as int] == map.entries@[i as int]@);
        if crate::step::is_text(&map.entries[i].kind, "FACE_BOUND") || crate::step::is_text(
            &map.entries[i].kind,
            "FACE_OUTER_BOUND",
        ) {
            match get_ref(param_ref(&map.entries[i].params, 1)) {
                Ok(_) => {},
                Err(e) => {
                    assert(bound_target(map@[i as int]) is None);
                    return Err(e);
                },
            }
        }
        i = i + 1;
    }
    Ok(())
}

/// The bounds `(#bound, ..)` of the `ADVANCED_FACE` instance `e`.
pub open spec fn face_bounds(e: EntityView) -> Option<Seq<u32>> {
    match list_of(param_at(e.params, 1)) {
        Some(l) => if forall|t: int| 0 <= t < l.len() ==> (#[trigger] ref_of(Some(l[t]))) is Some {
            Some(Seq::new(l.len(), |t: int| ref_of(Some(l[t])).unwrap()))
        } else {
            None
        },
        None => None,
    }
}

/// The first of the bounds from `t` on that is a `FACE_OUTER_BOUND`, or
/// `bids.len()`.
pub open spec fn first_outer(es: Seq<EntityView>, bids: Seq<u32>, t: int) -> int
    decreases bids.len() - t,
{
    if !(0 <= t < bids.len()) {
        bids.len() as int
    } else if is_kind(es, bids[t], "FACE_OUTER_BOUND"@) {
        t
    } else {
        first_outer(es, bids, t + 1)
    }
}

/// The bound a face is made from: its first `FACE_OUTER_BOUND`, else its
/// first bound.
pub open spec fn chosen_bound(es: Seq<EntityView>, bids: Seq<u32>) -> Option<u32> {
    let t = first_outer(es, bids, 0);
    if 0 <= t < bids.len() {
        Some(bids[t])
    } else if bids.len() > 0 {
        Some(bids[0])
    } else {
        None
    }
}

/// The loop of the `ADVANCED_FACE` with id `x`: the `EDGE_LOOP` of its chosen
/// bound.
pub open spec fn face_loop_of(es: Seq<EntityView>, x: u32) -> Option<Seq<OrientedEdgeId>> {
    match lookup(es, x) {
        Some(e) => match face_bounds(e) {
            Some(bids) => match chosen_bound(es, bids) {
                Some(b) => match lookup(es, b) {
                    Some(be) => if is_bound_kind(be.kind) {
                        match bound_target(be) {
                            Some(l) => match lookup(es, l) {
                                Some(le) => if le.kind == "EDGE_LOOP"@ {
                                    loop_of(es, le)
                                } else {
                                    None
                                },
                                None => None,
                            },
                            None => None,
                        }
                    } else {
                        None
                    },
                    None => None,
                },
                None => None,
            },
            None => None,
        },
        None => None,
    }
}

/// What is wrong with the `ADVANCED_FACE` with id `x`, if anything.
pub open spec fn face_error(es: Seq<EntityView>, x: u32) -> Option<Seq<char>> {
    let unusable = "ADVANCED_FACE #"@ + decimal_text(x as nat) + " has no usable bound"@;
    match lookup(es, x) {
        Some(e) => match list_of(param_at(e.params, 1)) {
            None => Some("expected list"@),
            Some(_) => match face_bounds(e) {
                None => Some("expected ref"@),
                Some(bids) => match chosen_bound(es, bids) {
                    None => Some(unusable),
                    Some(b) => match lookup(es, b) {
                        Some(be) => if is_bound_kind(be.kind) {
                            match bound_target(be) {
                                None => Some("expected ref"@),
                                Some(l) => match lookup(es, l) {
                                    Some(le) => if le.kind == "EDGE_LOOP"@ {
                                        loop_problem(es, le)
                                    } else {
                                        Some("missing EDGE_LOOP #"@ + decimal_text(l as nat))
                                    },
                                    None => Some("missing EDGE_LOOP #"@ + decimal_text(l as nat)),
                                },
                            }
                        } else {
                            Some(unusable)
                        },
                        None => Some(unusable),
                    },
                },
            },
        },
        None => Some("missing ADVANCED_FACE #"@ + decimal_text(x as nat)),
    }
}

/// `face_error` as a function of the id.
pub open spec fn face_errors(es: Seq<EntityView>) -> spec_fn(u32) -> Option<Seq<char>> {
    |x: u32| face_error(es, x)
}

/// Every `ADVANCED_FACE` has a loop.
pub open spec fn faces_ok(es: Seq<EntityView>) -> bool {
    let af = kind_ids(es, "ADVANCED_FACE"@);
    forall|f: int| 0 <= f < af.len() ==> (#[trigger] face_loop_of(es, af[f])) is Some
}

/// The last of the first `n` faces whose loop holds oriented edge `k`, or -1.
pub open spec fn last_face(es: Seq<EntityView>, n: int, k: int) -> int
    decreases n,
{
    if n <= 0 {
        -1
    } else if face_loop_of(es, kind_ids(es, "ADVANCED_FACE"@)[n - 1]).unwrap().contains(
        OrientedEdgeId(k as u32),
    ) {
        n - 1
    } else {
        last_face(es, n - 1, k)
    }
}

proof fn lemma_last_face_bounds(es: Seq<EntityView>, n: int, k: int)
    ensures
        last_face(es, n, k) < n || (n <= 0 && last_face(es, n, k) == -1),
        -1 <= last_face(es, n, k),
    decreases n,
{
    if n > 0 {
        lemma_last_face_bounds(es, n - 1, k);
    }
}

/// The instance with id `x` is a `FACE_OUTER_BOUND`.
fn is_outer(map: &EntityMap, x: u32) -> (res: bool)
    requires
        map.wf(),
    ensures
        res == is_kind(map@, x, "FACE_OUTER_BOUND"@),
{
    match map.find(x) {
        Some(i) => {
            assert(map@[i as int] == map.entries@[i as int]@);
            crate::step::is_text(&map.entries[i].kind, "FACE_OUTER_BOUND")
        },
        None => false,
    }
}

/// Reads the loop of the `ADVANCED_FACE` with id `x`.
fn face_loop(map: &EntityMap, oe: &Vec<u32>, oe_index: &HashMap<u32, usize>, x: u32) -> (res: Result<
    Vec<OrientedEdgeId>,
    StepError,
>)
    requires
        indexes(oe_index@, oe@),
        map.wf(),
        map@.len() < u32::MAX,
        oe@ == kind_ids(map@, "ORIENTED_EDGE"@),
    ensures
        match res {
            Ok(v) => face_loop_of(map@, x) == Some(v@) && (forall|u: int|
                0 <= u < v@.len() ==> (#[trigger] v@[u]).0 < oe@.len()) && face_error(map@, x) is None,
            Err(err) => face_loop_of(map@, x) is None && err is Parse && face_error(map@, x) == Some(
                parse_text(err),
            ),
        },
{
    let i = match map.find(x) {
        Some(i) => i,
        None => {
            return Err(crate::step::parse_error_num("missing ADVANCED_FACE #", x as u64));
        },
    };
    let ghost e = map@[i as int];
    assert(e == map.entries@[i as int]@);
    let list = get_list(param_ref(&map.entries[i].params, 1))?;
    let ghost l = params_view(list@);
    proof {
        crate::step::lemma_params_view(list@);
    }
    let mut bids: Vec<u32> = Vec::new();
    let mut t: usize = 0;
    while t < list.len()
        invariant
            l == params_view(list@),
            list_of(param_at(e.params, 1)) == Some(l),
            lookup(map@, x) == Some(e),
            l.len() == list@.len(),
            forall|u: int| 0 <= u < l.len() ==> #[trigger] l[u] == list@[u]@,
            t <= l.len(),
            bids@.len() == t,
            forall|u: int| 0 <= u < t ==> (#[trigger] ref_of(Some(l[u]))) is Some,
            forall|u: int| 0 <= u < t ==> (#[trigger] bids@[u]) == ref_of(Some(l[u])).unwrap(),
        decreases l.len() - t,
    {
        let r = match get_ref(Some(&list[t])) {
            Ok(r) => r,
            Err(err) => {
                assert(ref_of(Some(l[t as int])) is None);
                assert(face_bounds(e) is None);
                return Err(err);
            },
        };
        bids.push(r);
        t = t + 1;
    }
    assert(bids@ =~= Seq::new(l.len(), |u: int| ref_of(Some(l[u])).unwrap()));
    assert(face_bounds(e) == Some(bids@));
    let mut o: usize = 0;
    while o < bids.len() && !is_outer(map, bids[o])
        invariant
            map.wf(),
            o <= bids@.len(),
            first_outer(map@, bids@, o as int) == first_outer(map@, bids@, 0),
        decreases bids@.len() - o,
    {
        o = o + 1;
    }
    let chosen = if o < bids.len() {
        bids[o]
    } else if bids.len() > 0 {
        bids[0]
    } else {
        return Err(crate::step::parse_error_id("ADVANCED_FACE #", x as u64, " has no usable bound"));
    };
    assert(chosen_bound(map@, bids@) == Some(chosen));
    let bj = match map.find(chosen) {
        Some(bj) => bj,
        None => {
            return Err(crate::step::parse_error_id("ADVANCED_FACE #", x as u64, " has no usable bound"));
        },
    };
    assert(map@[bj as int] == map.entries@[bj as int]@);
    if !(crate::step::is_text(&map.entries[bj].kind, "FACE_BOUND") || crate::step::is_text(
        &map.entries[bj].kind,
        "FACE_OUTER_BOUND",
    )) {
        return Err(crate::step::parse_error_id("ADVANCED_FACE #", x as u64, " has no usable bound"));
    }
    let lid = get_ref(param_ref(&map.entries[bj].params, 1))?;
    let lj = match map.find(lid) {
        Some(lj) => lj,
        None => {
            return Err(crate::step::parse_error_num("missing EDGE_LOOP #", lid as u64));
        },
    };
    assert(map@[lj as int] == map.entries@[lj as int]@);
    if !crate::step::is_text(&map.entries[lj].kind, "EDGE_LOOP") {
        return Err(crate::step::parse_error_num("missing EDGE_LOOP #", lid as u64));
    }
    read_loop(map, &map.entries[lj], oe, oe_index)
}

/// The faces, one per `ADVANCED_FACE` in ascending order of id; each
/// oriented edge is given the last face whose loop holds it.
fn build_faces<N>(
    map: &EntityMap,
    oe: &Vec<u32>,
    oe_index: &HashMap<u32, usize>,
    af: &Vec<u32>,
    oriented: &mut Vec<OrientedEdge>,
) -> (res: Result<Vec<Face<N>>, StepError>)
    requires
        indexes(oe_index@, oe@),
        map.wf(),
        map@.len() < u32::MAX,
        oe@ == kind_ids(map@, "ORIENTED_EDGE"@),
        af@ == kind_ids(map@, "ADVANCED_FACE"@),
        old(oriented)@.len() == oe@.len(),
        forall|k: int| 0 <= k < oe@.len() ==> (#[trigger] old(oriented)@[k]).face.0 == u32::MAX,
    ensures
        final(oriented)@.len() == old(oriented)@.len(),
        forall|k: int|
            0 <= k < oe@.len() ==> (#[trigger] final(oriented)@[k]).edge == old(oriented)@[k].edge
                && final(oriented)@[k].forward == old(oriented)@[k].forward,
        match res {
            Ok(v) => {
                &&& faces_ok(map@)
                &&& v@.len() == af@.len()
                &&& forall|f: int|
                    0 <= f < v@.len() ==> (#[trigger] v@[f]).oriented_edges@ == face_loop_of(
                        map@,
                        af@[f],
                    ).unwrap() && v@[f].normal is None
                &&& forall|k: int|
                    0 <= k < oe@.len() ==> (#[trigger] final(oriented)@[k]).face.0 == slot_id(
                        last_face(map@, af@.len() as int, k),
                    )
            },
            Err(e) => !faces_ok(map@) && e is Parse && first_id_error(af@, 0, face_errors(map@)) == Some(
                parse_text(e),
            ),
        },
        res is Ok ==> first_id_error(af@, 0, face_errors(map@)) is None,
{
    proof {
        lemma_kind_ids(map@, "ADVANCED_FACE"@);
        lemma_kind_ids(map@, "ORIENTED_EDGE"@);
    }
    let mut faces: Vec<Face<N>> = Vec::new();
    let mut f: usize = 0;
    while f < af.len()
        invariant
            indexes(oe_index@, oe@),
            map.wf(),
            map@.len() < u32::MAX,
            oe@ == kind_ids(map@, "ORIENTED_EDGE"@),
            af@ == kind_ids(map@, "ADVANCED_FACE"@),
            af@.len() <= map@.len(),
            oe@.len() <= map@.len(),
            f <= af@.len(),
            first_id_error(af@, f as int, face_errors(map@)) == first_id_error(af@, 0, face_errors(map@)),
            faces@.len() == f,
            oriented@.len() == oe@.len(),
            old(oriented)@.len() == oe@.len(),
            forall|k: int|
                0 <= k < oe@.len() ==> (#[trigger] oriented@[k]).edge == old(oriented)@[k].edge
                    && oriented@[k].forward == old(oriented)@[k].forward,
            forall|g: int| 0 <= g < f ==> (#[trigger] face_loop_of(map@, af@[g])) is Some,
            forall|g: int|
                0 <= g < f ==> (#[trigger] faces@[g]).oriented_edges@ == face_loop_of(
                    map@,
                    af@[g],
                ).unwrap() && faces@[g].normal is None,
            forall|k: int|
                0 <= k < oe@.len() ==> (#[trigger] oriented@[k]).face.0 == slot_id(
                    last_face(map@, f as int, k),
                ),
        decreases af@.len() - f,
    {
        let lp = match face_loop(map, oe, oe_index, af[f]) {
            Ok(lp) => lp,
            Err(e) => {
                return Err(e);
            },
        };
        let ghost lv = lp@;
        let mut t: usize = 0;
        while t < lp.len()
            invariant
                lp@ == lv,
                face_loop_of(map@, af@[f as int]) == Some(lv),
                forall|u: int| 0 <= u < lv.len() ==> (#[trigger] lv[u]).0 < oe@.len(),
                oe@.len() <= map@.len() < u32::MAX,
                f < af@.len() <= map@.len(),
                t <= lv.len(),
                oriented@.len() == oe@.len(),
                old(oriented)@.len() == oe@.len(),
                forall|k: int|
                    0 <= k < oe@.len() ==> (#[trigger] oriented@[k]).edge == old(oriented)@[k].edge
                        && oriented@[k].forward == old(oriented)@[k].forward,
                forall|k: int|
                    0 <= k < oe@.len() ==> (#[trigger] oriented@[k]).face.0 == if exists|u: int|
                        0 <= u < t && lv[u].0 == k {
                        f as u32
                    } else {
                        slot_id(last_face(map@, f as int, k))
                    },
            decreases lv.len() - t,
        {
            let idx = lp[t].index();
            let mut o = oriented[idx];
            o.face = FaceId::new(f);
            let ghost before = oriented@;
            oriented.set(idx, o);
            proof {
                assert forall|k: int| 0 <= k < oe@.len() implies (#[trigger] oriented@[k]).face.0
                    == if exists|u: int| 0 <= u < t + 1 && lv[u].0 == k {
                    f as u32
                } else {
                    slot_id(last_face(map@, f as int, k))
                } by {
                    if k == idx {
                        assert(lv[t as int].0 == k);
                    } else {
                        assert(oriented@[k] == before[k]);
                        if exists|u: int| 0 <= u < t + 1 && lv[u].0 == k {
                            let u = choose|u: int| 0 <= u < t + 1 && lv[u].0 == k;
                            assert(u != t);
                        }
                    }
                }
            }
            t = t + 1;
        }
        proof {
            assert forall|k: int| 0 <= k < oe@.len() implies (#[trigger] oriented@[k]).face.0
                == slot_id(last_face(map@, f + 1, k)) by {
                lemma_last_face_bounds(map@, f as int, k);
                if exists|u: int| 0 <= u < lv.len() && lv[u].0 == k {
                    let u = choose|u: int| 0 <= u < lv.len() && lv[u].0 == k;
                    assert(lv[u] == OrientedEdgeId(k as u32));
                    assert(lv.contains(OrientedEdgeId(k as u32)));
                } else {
                    assert(!lv.contains(OrientedEdgeId(k as u32)));
                }
            }
        }
        faces.push(Face { oriented_edges: lp, normal: None });
        f = f + 1;
    }
    Ok(faces)
}

/// The message for the first index from `t` below `n` that `f` finds fault
/// with.
pub open spec fn first_index_error(n: int, t: int, f: spec_fn(int) -> Option<Seq<char>>) -> Option<
    Seq<char>,
>
    decreases n - t,
{
    if !(0 <= t < n) {
        None
    } else if f(t) is Some {
        f(t)
    } else {
        first_index_error(n, t + 1, f)
    }
}

/// Oriented edge `k` belongs to no face.
pub open spec fn unassigned_errors(es: Seq<EntityView>) -> spec_fn(int) -> Option<Seq<char>> {
    |k: int| if last_face(es, kind_ids(es, "ADVANCED_FACE"@).len() as int, k) < 0 {
        Some("oriented_edge "@ + decimal_text(k as nat) + " was not assigned to any face"@)
    } else {
        None
    }
}

/// Edge `j` lacks an oriented edge in one direction.
pub open spec fn slot_errors(es: Seq<EntityView>) -> spec_fn(int) -> Option<Seq<char>> {
    |j: int| {
        let n = kind_ids(es, "ORIENTED_EDGE"@).len() as int;
        if last_oe(es, n, j, true) < 0 || last_oe(es, n, j, false) < 0 {
            Some(
                "edge "@ + decimal_text(j as nat)
                    + " is missing a forward or reversed oriented_edge back-ref"@,
            )
        } else {
            None
        }
    }
}

/// Checks that every oriented edge belongs to a face.
fn check_faces_assigned(map: &EntityMap, oe: &Vec<u32>, af: &Vec<u32>, oriented: &Vec<OrientedEdge>) -> (res:
    Result<(), StepError>)
    requires
        map.wf(),
        map@.len() < u32::MAX,
        oe@ == kind_ids(map@, "ORIENTED_EDGE"@),
        af@ == kind_ids(map@, "ADVANCED_FACE"@),
        oriented@.len() == oe@.len(),
        forall|k: int|
            0 <= k < oe@.len() ==> (#[trigger] oriented@[k]).face.0 == slot_id(
                last_face(map@, af@.len() as int, k),
            ),
    ensures
        match res {
            Ok(_) => (forall|k: int| 0 <= k < oe@.len() ==> #[trigger] last_face(map@, af@.len() as int, k) >= 0)
                && first_index_error(oe@.len() as int, 0, unassigned_errors(map@)) is None,
            Err(e) => e is Parse && first_index_error(oe@.len() as int, 0, unassigned_errors(map@))
                == Some(parse_text(e)) && exists|k: int| 0 <= k < oe@.len() && #[trigger] last_face(map@, af@.len() as int, k) < 0,
        },
{
    let ghost es = map@;
    proof {
        lemma_kind_ids(es, "ORIENTED_EDGE"@);
        lemma_kind_ids(es, "ADVANCED_FACE"@);
    }
    let mut k: usize = 0;
    while k < oriented.len()
        invariant
            es == map@,
            es.len() < u32::MAX,
            af@ == kind_ids(es, "ADVANCED_FACE"@),
            af@.len() <= es.len(),
            oe@.len() <= es.len(),
            oriented@.len() == oe@.len(),
            forall|kk: int|
                0 <= kk < oe@.len() ==> (#[trigger] oriented@[kk]).face.0 == slot_id(
                    last_face(es, af@.len() as int, kk),
                ),
            k <= oe@.len(),
            forall|kk: int| 0 <= kk < k ==> #[trigger] last_face(es, af@.len() as int, kk) >= 0,
            first_index_error(oe@.len() as int, k as int, unassigned_errors(es)) == first_index_error(
                oe@.len() as int,
                0,
                unassigned_errors(es),
            ),
        decreases oe@.len() - k,
    {
        proof {
            lemma_last_face_bounds(es, af@.len() as int, k as int);
        }
        if oriented[k].face.0 == u32::MAX {
            assert(last_face(es, af@.len() as int, k as int) < 0);
            return Err(
                crate::step::parse_error_id("oriented_edge ", k as u64, " was not assigned to any face"),
            );
        }
        k = k + 1;
    }
    Ok(())
}

/// Checks that every edge has an oriented edge in each direction.
fn check_slots(map: &EntityMap, ec: &Vec<u32>, oe: &Vec<u32>, edges: &Vec<Edge>) -> (res: Result<(), StepError>)
    requires
        map.wf(),
        map@.len() < u32::MAX,
        ec@ == kind_ids(map@, "EDGE_CURVE"@),
        oe@ == kind_ids(map@, "ORIENTED_EDGE"@),
        edges@.len() == ec@.len(),
        forall|jj: int|
            0 <= jj < ec@.len() ==> {
                let ed = #[trigger] edges@[jj];
                &&& ed.oriented_edges[0].0 == slot_id(last_oe(map@, oe@.len() as int, jj, true))
                &&& ed.oriented_edges[1].0 == slot_id(last_oe(map@, oe@.len() as int, jj, false))
            },
    ensures
        match res {
            Ok(_) => (forall|j: int|
                0 <= j < ec@.len() ==> #[trigger] last_oe(map@, oe@.len() as int, j, true) >= 0
                    && last_oe(map@, oe@.len() as int, j, false) >= 0) && first_index_error(
                ec@.len() as int,
                0,
                slot_errors(map@),
            ) is None,
            Err(e) => e is Parse && first_index_error(ec@.len() as int, 0, slot_errors(map@)) == Some(
                parse_text(e),
            ) && exists|j: int|
                0 <= j < ec@.len() && (#[trigger] last_oe(map@, oe@.len() as int, j, true) < 0
                    || last_oe(map@, oe@.len() as int, j, false) < 0),
        },
{
    let ghost es = map@;
    proof {
        lemma_kind_ids(es, "EDGE_CURVE"@);
        lemma_kind_ids(es, "ORIENTED_EDGE"@);
    }
    let mut j: usize = 0;
    while j < edges.len()
        invariant
            es == map@,
            es.len() < u32::MAX,
            oe@ == kind_ids(es, "ORIENTED_EDGE"@),
            ec@ == kind_ids(es, "EDGE_CURVE"@),
            oe@.len() <= es.len(),
            ec@.len() <= es.len(),
            edges@.len() == ec@.len(),
            forall|jj: int|
                0 <= jj < ec@.len() ==> {
                    let ed = #[trigger] edges@[jj];
                    &&& ed.oriented_edges[0].0 == slot_id(last_oe(es, oe@.len() as int, jj, true))
                    &&& ed.oriented_edges[1].0 == slot_id(last_oe(es, oe@.len() as int, jj, false))
                },
            j <= ec@.len(),
            forall|jj: int|
                0 <= jj < j ==> #[trigger] last_oe(es, oe@.len() as int, jj, true) >= 0 && last_oe(
                    es,
                    oe@.len() as int,
                    jj,
                    false,
                ) >= 0,
            first_index_error(ec@.len() as int, j as int, slot_errors(es)) == first_index_error(
                ec@.len() as int,
                0,
                slot_errors(es),
            ),
        decreases ec@.len() - j,
    {
        proof {
            lemma_last_oe_bounds(es, oe@.len() as int, j as int, true);
            lemma_last_oe_bounds(es, oe@.len() as int, j as int, false);
        }
        if edges[j].oriented_edges[0].0 == u32::MAX || edges[j].oriented_edges[1].0 == u32::MAX {
            assert(last_oe(es, oe@.len() as int, j as int, true) < 0 || last_oe(es, oe@.len() as int, j as int, false) < 0);
            return Err(
                crate::step::parse_error_id(
                    "edge ",
                    j as u64,
                    " is missing a forward or reversed oriented_edge back-ref",
                ),
            );
        }
        proof {
            let a = last_oe(es, oe@.len() as int, j as int, true);
            let b = last_oe(es, oe@.len() as int, j as int, false);
            assert(edges@[j as int].oriented_edges[0].0 == slot_id(a));
            assert(edges@[j as int].oriented_edges[1].0 == slot_id(b));
            assert(a >= 0);
            assert(b >= 0);
            assert forall|jj: int| 0 <= jj < j + 1 implies #[trigger] last_oe(es, oe@.len() as int, jj, true)
                >= 0 && last_oe(es, oe@.len() as int, jj, false) >= 0 by {
                if jj == j {
                    assert(a >= 0 && b >= 0);
                }
            }
        }
        j = j + 1;
    }
    Ok(())
}

/// Everything the instances must satisfy for a mesh to be built from them.
pub open spec fn step_mesh_ok(es: Seq<EntityView>) -> bool {
    let ec = kind_ids(es, "EDGE_CURVE"@);
    let oe = kind_ids(es, "ORIENTED_EDGE"@);
    let af = kind_ids(es, "ADVANCED_FACE"@);
    &&& points_ok(es)
    &&& vertices_ok(es)
    &&& edges_ok(es)
    &&& oes_ok(es)
    &&& loops_ok(es)
    &&& bounds_ok(es)
    &&& faces_ok(es)
    &&& forall|k: int| 0 <= k < oe.len() ==> #[trigger] last_face(es, af.len() as int, k) >= 0
    &&& forall|j: int|
        0 <= j < ec.len() ==> #[trigger] last_oe(es, oe.len() as int, j, true) >= 0 && last_oe(
            es,
            oe.len() as int,
            j,
            false,
        ) >= 0
}

/// `a` if it holds a message, else `b`.
pub open spec fn or_else(a: Option<Seq<char>>, b: Option<Seq<char>>) -> Option<Seq<char>> {
    if a is Some {
        a
    } else {
        b
    }
}

/// The message of the first fault found in the instances `es`, if any: the
/// points, the vertices, the edges and the oriented edges by ascending id,
/// the loops and the bounds in the order of the instances, then the faces by
/// ascending id; last, the first oriented edge that belongs to no face and
/// the first edge that lacks an oriented edge in a direction.
pub open spec fn mesh_error(es: Seq<EntityView>) -> Option<Seq<char>> {
    let vp = kind_ids(es, "VERTEX_POINT"@);
    let ec = kind_ids(es, "EDGE_CURVE"@);
    let oe = kind_ids(es, "ORIENTED_EDGE"@);
    let af = kind_ids(es, "ADVANCED_FACE"@);
    or_else(
        first_entity_error(es, 0, point_errors()),
        or_else(
            first_id_error(vp, 0, vertex_errors(es)),
            or_else(
                first_id_error(ec, 0, edge_errors(es)),
                or_else(
                    first_id_error(oe, 0, oe_errors(es)),
                    or_else(
                        first_entity_error(es, 0, loop_errors(es)),
                        or_else(
                            first_entity_error(es, 0, bound_errors()),
                            or_else(
                                first_id_error(af, 0, face_errors(es)),
                                or_else(
                                    first_index_error(oe.len() as int, 0, unassigned_errors(es)),
                                    first_index_error(ec.len() as int, 0, slot_errors(es)),
                                ),
                            ),
                        ),
                    ),
                ),
            ),
        ),
    )
}

/// `m` is the mesh of the instances `es`: one vertex per `VERTEX_POINT`, one
/// edge per `EDGE_CURVE`, one oriented edge per `ORIENTED_EDGE` and one face
/// per `ADVANCED_FACE`, each kind in ascending order of id.
pub open spec fn is_step_mesh<N>(es: Seq<EntityView>, m: Mesh<StepPoint, N>) -> bool {
    let vp = kind_ids(es, "VERTEX_POINT"@);
    let ec = kind_ids(es, "EDGE_CURVE"@);
    let oe = kind_ids(es, "ORIENTED_EDGE"@);
    let af = kind_ids(es, "ADVANCED_FACE"@);
    &&& m.vertices@.len() == vp.len()
    &&& forall|t: int|
        0 <= t < vp.len() ==> point_view(#[trigger] m.vertices@[t].position) == vertex_position(
            es,
            t,
        )
    &&& m.edges@.len() == ec.len()
    &&& forall|j: int|
        0 <= j < ec.len() ==> {
            let ends = edge_ends(es, ec[j]).unwrap();
            let ed = #[trigger] m.edges@[j];
            &&& ed.vertices[0].0 == ends.0
            &&& ed.vertices[1].0 == ends.1
            &&& ed.oriented_edges[0].0 == slot_id(last_oe(es, oe.len() as int, j, true))
            &&& ed.oriented_edges[1].0 == slot_id(last_oe(es, oe.len() as int, j, false))
        }
    &&& m.oriented_edges@.len() == oe.len()
    &&& forall|k: int|
        0 <= k < oe.len() ==> {
            let parts = oe_parts(es, oe[k]).unwrap();
            let o = #[trigger] m.oriented_edges@[k];
            &&& o.edge.0 == parts.0
            &&& o.forward == parts.1
            &&& o.face.0 == slot_id(last_face(es, af.len() as int, k))
        }
    &&& m.faces@.len() == af.len()
    &&& forall|f: int|
        0 <= f < af.len() ==> (#[trigger] m.faces@[f]).oriented_edges@ == face_loop_of(
            es,
            af[f],
        ).unwrap() && m.faces@[f].normal is None
}

/// In a mesh built from the instances `es`, vertex `t` stands at the point
/// of the `t`-th `VERTEX_POINT('', #c)` by id: its `x`, `y` and `z` are the
/// first, second and third entries, in that order, of the coordinate list
/// `(x, y, z)` of the `CARTESIAN_POINT` `#c`, each as the literal written.
pub proof fn law_vertex_coordinates<N>(es: Seq<EntityView>, m: Mesh<StepPoint, N>, t: int)
    requires
        step_mesh_ok(es),
        is_step_mesh(es, m),
        0 <= t < m.vertices@.len(),
    ensures
        ({
            let v = lookup(es, kind_ids(es, "VERTEX_POINT"@)[t]);
            let pos = m.vertices@[t].position;
            &&& v is Some
            &&& v.unwrap().params.len() > 1
            &&& match v.unwrap().params[1] {
                ParamView::Ref(c) => match lookup(es, c) {
                    Some(cp) => {
                        &&& cp.kind == "CARTESIAN_POINT"@
                        &&& cp.params.len() > 1
                        &&& match cp.params[1] {
                            ParamView::List(l) => {
                                &&& l.len() >= 3
                                &&& l[0] == ParamView::Real(pos.x@)
                                &&& l[1] == ParamView::Real(pos.y@)
                                &&& l[2] == ParamView::Real(pos.z@)
                            },
                            _ => false,
                        }
                    },
                    None => false,
                },
                _ => false,
            }
        }),
{
    let vp = kind_ids(es, "VERTEX_POINT"@);
    assert(match vertex_target(es, vp[t]) {
        Some(c) => point_at(es, c) is Some,
        None => false,
    });
    assert(point_view(m.vertices@[t].position) == vertex_position(es, t));
}

/// Builds the mesh of the topology instances of a STEP file. Fails when an
/// instance lacks a parameter it needs, refers to a missing instance, or
/// when an oriented edge belongs to no face or an edge lacks an oriented
/// edge in either direction; the message names the first such fault
/// (`mesh_error`).
pub fn build_mesh<N>(entities: &EntityMap) -> (res: Result<Mesh<StepPoint, N>, StepError>)
    requires
        entities.wf(),
        entities@.len() < u32::MAX,
    ensures
        match res {
            Ok(m) => step_mesh_ok(entities@) && is_step_mesh(entities@, m) && mesh_error(entities@) is None,
            Err(e) => !step_mesh_ok(entities@) && e is Parse && mesh_error(entities@) == Some(
                parse_text(e),
            ),
        },
{
    match check_points(entities) {
        Ok(_) => {},
        Err(e) => {
            return Err(e);
        },
    }
    let vp = kind_ids_of(entities, "VERTEX_POINT");
    let vertices = match build_vertices(entities, &vp) {
        Ok(v) => v,
        Err(e) => {
            return Err(e);
        },
    };
    let ec = kind_ids_of(entities, "EDGE_CURVE");
    proof {
        lemma_kind_ids(entities@, "VERTEX_POINT"@);
        lemma_kind_ids(entities@, "EDGE_CURVE"@);
        lemma_kind_ids(entities@, "ORIENTED_EDGE"@);
    }
    let vp_index = index_map(&vp);
    let mut edges = match build_edges(entities, &vp, &vp_index, &ec) {
        Ok(v) => v,
        Err(e) => {
            return Err(e);
        },
    };
    let oe = kind_ids_of(entities, "ORIENTED_EDGE");
    let ec_index = index_map(&ec);
    let oe_index = index_map(&oe);
    let mut oriented = match build_oriented_edges(entities, &ec, &ec_index, &oe, &mut edges) {
        Ok(v) => v,
        Err(e) => {
            return Err(e);
        },
    };
    match check_loops(entities, &oe, &oe_index) {
        Ok(_) => {},
        Err(e) => {
            return Err(e);
        },
    }
    match check_bounds(entities) {
        Ok(_) => {},
        Err(e) => {
            return Err(e);
        },
    }
    let af = kind_ids_of(entities, "ADVANCED_FACE");
    let faces: Vec<Face<N>> = match build_faces(entities, &oe, &oe_index, &af, &mut oriented) {
        Ok(v) => v,
        Err(e) => {
            return Err(e);
        },
    };
    match check_faces_assigned(entities, &oe, &af, &oriented) {
        Ok(_) => {},
        Err(e) => {
            return Err(e);
        },
    }
    match check_slots(entities, &ec, &oe, &edges) {
        Ok(_) => {},
        Err(e) => {
            return Err(e);
        },
    }
    Ok(Mesh { vertices, edges, oriented_edges: oriented, faces })
}

} // verus!
