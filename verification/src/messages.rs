//! The messages that describe the violations of validity, one line each.

use vstd::prelude::*;

use crate::step::string_from_chars;
use crate::text::{chars_of, decimal_chars, decimal_text};
use crate::validate::MeshError;

verus! {

/// `n` in decimal.
pub open spec fn number(n: usize) -> Seq<char> {
    decimal_text(n as nat)
}

/// `true` or `false`.
pub open spec fn bool_text(b: bool) -> Seq<char> {
    if b {
        "true"@
    } else {
        "false"@
    }
}

/// The message that describes `e`.
pub open spec fn message(e: MeshError) -> Seq<char> {
    match e {
        MeshError::EdgeVertexOutOfRange { edge, slot, vertex, num_vertices } => "edge "@ + number(edge) + ": vertex slot "@ + number(slot) + " ref "@ + number(vertex) + " out of range (mesh has "@ + number(num_vertices) + " vertices)"@,
        MeshError::EdgeOrientedEdgeOutOfRange { edge, slot, oriented_edge, num_oriented_edges } => "edge "@ + number(edge) + ": OE slot "@ + number(slot) + " ref "@ + number(oriented_edge) + " out of range (mesh has "@ + number(num_oriented_edges) + " oriented edges)"@,
        MeshError::EdgeBackRefMismatch { edge, slot, oriented_edge, back_ref } => "edge "@ + number(edge) + ": OE slot "@ + number(slot) + " (id "@ + number(oriented_edge) + ") back-references edge "@ + number(back_ref) + ", expected "@ + number(edge),
        MeshError::EdgeDirectionMismatch { edge, slot, oriented_edge, forward } => "edge "@ + number(edge) + ": OE slot "@ + number(slot) + " (id "@ + number(oriented_edge) + ") has forward="@ + bool_text(forward) + ", expected "@ + bool_text(slot == 0),
        MeshError::OrientedEdgeEdgeOutOfRange { oriented_edge, edge, num_edges } => "oriented_edge "@ + number(oriented_edge) + ": edge ref "@ + number(edge) + " out of range (mesh has "@ + number(num_edges) + " edges)"@,
        MeshError::OrientedEdgeFaceOutOfRange { oriented_edge, face, num_faces } => "oriented_edge "@ + number(oriented_edge) + ": face back-ref "@ + number(face) + " out of range (mesh has "@ + number(num_faces) + " faces)"@,
        MeshError::OrientedEdgeNotInLoop { oriented_edge, face } => "oriented_edge "@ + number(oriented_edge) + ": face back-ref "@ + number(face) + " does not contain it in its loop"@,
        MeshError::FaceOrientedEdgeOutOfRange { face, oriented_edge, num_oriented_edges, .. } => "face "@ + number(face) + ": OE ref "@ + number(oriented_edge) + " out of range (mesh has "@ + number(num_oriented_edges) + " oriented edges)"@,
        MeshError::OrientedEdgeUnreferenced { oriented_edge } => "oriented_edge "@ + number(oriented_edge) + ": not referenced by any face"@,
        MeshError::OrientedEdgeMultiplyReferenced { oriented_edge, count } => "oriented_edge "@ + number(oriented_edge) + ": referenced by "@ + number(count) + " face loops"@,
        MeshError::LoopGap { face, position, end_vertex, next_position, start_vertex } => "face "@ + number(face) + ": OE "@ + number(position) + " ends at vertex "@ + number(end_vertex) + " but OE "@ + number(next_position) + " starts at vertex "@ + number(start_vertex),
        MeshError::NonManifoldEdge { edge, face } => "edge "@ + number(edge) + ": both oriented edges belong to face "@ + number(face) + " (non-manifold)"@,
        MeshError::FaceTooSmall { face, len } => "face "@ + number(face) + ": has only "@ + number(len) + " vertices/edges"@,
    }
}

fn push_chars(v: &mut Vec<char>, s: &Vec<char>)
    ensures
        final(v)@ == old(v)@ + s@,
{
    let ghost v0 = v@;
    let mut i: usize = 0;
    while i < s.len()
        invariant
            i <= s@.len(),
            v@ == v0 + s@.take(i as int),
        decreases s@.len() - i,
    {
        v.push(s[i]);
        i = i + 1;
        assert(v@ =~= v0 + s@.take(i as int));
    }
    assert(s@.take(s@.len() as int) =~= s@);
}

fn push_text(v: &mut Vec<char>, s: &str)
    ensures
        final(v)@ == old(v)@ + s@,
{
    let c = chars_of(s);
    push_chars(v, &c);
}

fn push_number(v: &mut Vec<char>, n: usize)
    ensures
        final(v)@ == old(v)@ + number(n),
{
    let c = decimal_chars(n as u64);
    push_chars(v, &c);
}

fn push_bool(v: &mut Vec<char>, b: bool)
    ensures
        final(v)@ == old(v)@ + bool_text(b),
{
    if b {
        push_text(v, "true");
    } else {
        push_text(v, "false");
    }
}

/// The message that describes `e`, as a line of text.
pub fn describe(e: &MeshError) -> (res: String)
    ensures
        res@ == message(*e),
{
    let mut v: Vec<char> = Vec::new();
    match *e {
        MeshError::EdgeVertexOutOfRange { edge, slot, vertex, num_vertices } => {
            push_text(&mut v, "edge ");
            push_number(&mut v, edge);
            push_text(&mut v, ": vertex slot ");
            push_number(&mut v, slot);
            push_text(&mut v, " ref ");
            push_number(&mut v, vertex);
            push_text(&mut v, " out of range (mesh has ");
            push_number(&mut v, num_vertices);
            push_text(&mut v, " vertices)");
        },
        MeshError::EdgeOrientedEdgeOutOfRange { edge, slot, oriented_edge, num_oriented_edges } => {
            push_text(&mut v, "edge ");
            push_number(&mut v, edge);
            push_text(&mut v, ": OE slot ");
            push_number(&mut v, slot);
            push_text(&mut v, " ref ");
            push_number(&mut v, oriented_edge);
            push_text(&mut v, " out of range (mesh has ");
            push_number(&mut v, num_oriented_edges);
            push_text(&mut v, " oriented edges)");
        },
        MeshError::EdgeBackRefMismatch { edge, slot, oriented_edge, back_ref } => {
            push_text(&mut v, "edge ");
            push_number(&mut v, edge);
            push_text(&mut v, ": OE slot ");
            push_number(&mut v, slot);
            push_text(&mut v, " (id ");
            push_number(&mut v, oriented_edge);
            push_text(&mut v, ") back-references edge ");
            push_number(&mut v, back_ref);
            push_text(&mut v, ", expected ");
            push_number(&mut v, edge);
        },
        MeshError::EdgeDirectionMismatch { edge, slot, oriented_edge, forward } => {
            push_text(&mut v, "edge ");
            push_number(&mut v, edge);
            push_text(&mut v, ": OE slot ");
            push_number(&mut v, slot);
            push_text(&mut v, " (id ");
            push_number(&mut v, oriented_edge);
            push_text(&mut v, ") has forward=");
            push_bool(&mut v, forward);
            push_text(&mut v, ", expected ");
            push_bool(&mut v, slot == 0);
        },
        MeshError::OrientedEdgeEdgeOutOfRange { oriented_edge, edge, num_edges } => {
            push_text(&mut v, "oriented_edge ");
            push_number(&mut v, oriented_edge);
            push_text(&mut v, ": edge ref ");
            push_number(&mut v, edge);
            push_text(&mut v, " out of range (mesh has ");
            push_number(&mut v, num_edges);
            push_text(&mut v, " edges)");
        },
        MeshError::OrientedEdgeFaceOutOfRange { oriented_edge, face, num_faces } => {
            push_text(&mut v, "oriented_edge ");
            push_number(&mut v, oriented_edge);
            push_text(&mut v, ": face back-ref ");
            push_number(&mut v, face);
            push_text(&mut v, " out of range (mesh has ");
            push_number(&mut v, num_faces);
            push_text(&mut v, " faces)");
        },
        MeshError::OrientedEdgeNotInLoop { oriented_edge, face } => {
            push_text(&mut v, "oriented_edge ");
            push_number(&mut v, oriented_edge);
            push_text(&mut v, ": face back-ref ");
            push_number(&mut v, face);
            push_text(&mut v, " does not contain it in its loop");
        },
        MeshError::FaceOrientedEdgeOutOfRange { face, oriented_edge, num_oriented_edges, .. } => {
            push_text(&mut v, "face ");
            push_number(&mut v, face);
            push_text(&mut v, ": OE ref ");
            push_number(&mut v, oriented_edge);
            push_text(&mut v, " out of range (mesh has ");
            push_number(&mut v, num_oriented_edges);
            push_text(&mut v, " oriented edges)");
        },
        MeshError::OrientedEdgeUnreferenced { oriented_edge } => {
            push_text(&mut v, "oriented_edge ");
            push_number(&mut v, oriented_edge);
            push_text(&mut v, ": not referenced by any face");
        },
        MeshError::OrientedEdgeMultiplyReferenced { oriented_edge, count } => {
            push_text(&mut v, "oriented_edge ");
            push_number(&mut v, oriented_edge);
            push_text(&mut v, ": referenced by ");
            push_number(&mut v, count);
            push_text(&mut v, " face loops");
        },
        MeshError::LoopGap { face, position, end_vertex, next_position, start_vertex } => {
            push_text(&mut v, "face ");
            push_number(&mut v, face);
            push_text(&mut v, ": OE ");
            push_number(&mut v, position);
            push_text(&mut v, " ends at vertex ");
            push_number(&mut v, end_vertex);
            push_text(&mut v, " but OE ");
            push_number(&mut v, next_position);
            push_text(&mut v, " starts at vertex ");
            push_number(&mut v, start_vertex);
        },
        MeshError::NonManifoldEdge { edge, face } => {
            push_text(&mut v, "edge ");
            push_number(&mut v, edge);
            push_text(&mut v, ": both oriented edges belong to face ");
            push_number(&mut v, face);
            push_text(&mut v, " (non-manifold)");
        },
        MeshError::FaceTooSmall { face, len } => {
            push_text(&mut v, "face ");
            push_number(&mut v, face);
            push_text(&mut v, ": has only ");
            push_number(&mut v, len);
            push_text(&mut v, " vertices/edges");
        },
    }
    assert(v@ =~= message(*e));
    string_from_chars(&v)
}

} // verus!
