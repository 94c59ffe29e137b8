//! Index types of the mesh arenas.

use vstd::prelude::*;

verus! {

/// Index of a vertex in `Mesh::vertices`.
#[derive(Clone, Copy, Debug, PartialEq, Eq, Hash, PartialOrd, Ord, Structural)]
pub struct VertexId(pub u32);

/// Index of an edge in `Mesh::edges`.
#[derive(Clone, Copy, Debug, PartialEq, Eq, Hash, PartialOrd, Ord, Structural)]
pub struct EdgeId(pub u32);

/// Index of an oriented edge in `Mesh::oriented_edges`.
#[derive(Clone, Copy, Debug, PartialEq, Eq, Hash, PartialOrd, Ord, Structural)]
pub struct OrientedEdgeId(pub u32);

/// Index of a face in `Mesh::faces`.
#[derive(Clone, Copy, Debug, PartialEq, Eq, Hash, PartialOrd, Ord, Structural)]
pub struct FaceId(pub u32);

impl VertexId {
    /// The id of index `idx`; the index is kept modulo 2^32.
    pub fn new(idx: usize) -> (res: Self)
        ensures
            res.0 == idx as u32,
            idx <= u32::MAX ==> res.0 == idx,
    {
        Self(#[verifier::truncate] (idx as u32))
    }

    pub fn index(self) -> (res: usize)
        ensures
            res == self.0,
    {
        self.0 as usize
    }
}

impl EdgeId {
    /// The reserved id that refers to no edge.
    pub fn invalid() -> (res: Self)
        ensures
            res.0 == u32::MAX,
    {
        Self(u32::MAX)
    }

    /// The id of index `idx`; the index is kept modulo 2^32.
    pub fn new(idx: usize) -> (res: Self)
        ensures
            res.0 == idx as u32,
            idx <= u32::MAX ==> res.0 == idx,
    {
        Self(#[verifier::truncate] (idx as u32))
    }

    pub fn index(self) -> (res: usize)
        ensures
            res == self.0,
    {
        self.0 as usize
    }
}

impl OrientedEdgeId {
    /// The reserved id that refers to no oriented edge.
    pub fn invalid() -> (res: Self)
        ensures
            res.0 == u32::MAX,
    {
        Self(u32::MAX)
    }

    /// The id of index `idx`; the index is kept modulo 2^32.
    pub fn new(idx: usize) -> (res: Self)
        ensures
            res.0 == idx as u32,
            idx <= u32::MAX ==> res.0 == idx,
    {
        Self(#[verifier::truncate] (idx as u32))
    }

    pub fn index(self) -> (res: usize)
        ensures
            res == self.0,
    {
        self.0 as usize
    }
}

impl FaceId {
    /// The reserved id that refers to no face.
    pub fn invalid() -> (res: Self)
        ensures
            res.0 == u32::MAX,
    {
        Self(u32::MAX)
    }

    /// The id of index `idx`; the index is kept modulo 2^32.
    pub fn new(idx: usize) -> (res: Self)
        ensures
            res.0 == idx as u32,
            idx <= u32::MAX ==> res.0 == idx,
    {
        Self(#[verifier::truncate] (idx as u32))
    }

    pub fn index(self) -> (res: usize)
        ensures
            res == self.0,
    {
        self.0 as usize
    }
}

} // verus!
