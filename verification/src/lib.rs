//! Boundary representation (B-rep) of closed polyhedral solids: the topology
//! of vertices, edges, oriented edges and faces, its validation, the
//! topological part of pushing and pulling a face, primitive solids and a
//! reader for the DATA section of STEP files.
//!
//! Geometry (positions and normals) is carried as opaque payloads `P` and `N`:
//! the verified code moves them along with the elements they belong to but
//! never inspects them.

pub mod ids;
pub mod mesh;
pub mod counting;
pub mod compact;
pub mod pull;
pub mod sides;
pub mod pushpull;
pub mod validate;
pub mod messages;
pub mod primitives;
pub mod text;
pub mod step;
pub mod step_mesh;

pub use ids::{EdgeId, FaceId, OrientedEdgeId, VertexId};
pub use mesh::{Edge, Face, Mesh, OrientedEdge, Vertex};
pub use primitives::{make_cube, make_ramp};
pub use pushpull::make_push_pull_workspace;
pub use step::StepError;
pub use validate::validate_mesh;
