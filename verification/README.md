# brep

Topology of boundary-representation meshes of closed polyhedral solids, with
the contracts of its operations proved by Verus.

- `src/` is the verified library. `mesh`, `ids`: the arenas of vertices,
  edges, oriented edges and faces and what a valid mesh is; `validate`: the
  violations of validity, reported exactly, and `messages`, their text; `pull` (with `compact` and
  `counting`): lifting a face and joining it with a skirt of faces, merged
  into the orthogonal neighbours, keeping the mesh valid; `sides`: face loops
  seen as the pairs of start and end vertex of their entries, which say what
  a merged face's loop becomes across the renumbering of the arenas; `pushpull`: the
  neighbourhood of a face and the vertices that limit a push; `primitives`:
  the cube and the ramp; `text`, `step`, `step_mesh`: reading the DATA section
  of a STEP file and building a mesh from its topology instances.
  Positions and normals are opaque payloads of the mesh.
- `app/` holds what works on floating-point geometry with nalgebra (face
  normals, the offsets of push and pull, the coordinates of the primitives)
  and reading files from disk.
- `tests/` runs the library on the cube, the ramp and a small STEP file.
