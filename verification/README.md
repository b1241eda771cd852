# code_notes

A glTF scene viewer built on wgpu and winit, split in two:

- `src/` is the library, written in Verus and verified: the merging of index
  ranges into the scene's index buffer and the placement of each primitive's
  indices and vertices in the scene buffers, the copying of accessor data out
  of a glTF file's main buffer, the decoding of embedded buffers, the
  bookkeeping of mesh instances and joints while walking a model's node tree,
  the per-instance transforms of a scene (adding instances, writing animation
  frames), the draw calls of a scene, the queues of playing animations, and
  the keyboard state. Matrices are a type parameter, so the library never
  handles floating point.
- `app/` is the viewer around it: window and GPU setup, reading files,
  turning glTF documents into the library's types, camera and animation
  interpolation (floating point), and the render loop.
- `tests/` runs the library on concrete values.
