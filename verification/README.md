# rendering_engine

The bookkeeping of an OpenGL ES rendering engine and of a voxel demo built on
it, written in Verus: every function in `src/` carries a contract that the
verifier proves.

## Layout

- `src/free_list.rs`: first-fit allocator with coalescing free blocks, used
  for the shared vertex/index buffers.
- `src/triple_buffer.rs`: the three-slot exchange between the game and the
  render thread.
- `src/ranking.rs`, `src/distinct.rs`: stable sorting and distinctness
  lemmas shared by the rest.
- `src/render/`: pipeline states and their cache, pass ordering and clear
  settings, draw batching and indirect commands, lights, scene objects.
- `src/resources/`: geometry pool, material, shader and texture managers, and
  the pairing of shader source files into programs.
- `src/voxel/`: blocks, chunks, terrain layers, the greedy chunk mesher and
  the chunk loader that decides what to load and unload.
- `src/demo/`: the demo's HUD glyphs, touch buttons and mesh residency.
- `app/`: the program around the library: window, GL context, GPU objects,
  threads, configuration files and everything that uses floating point.
- `tests/`: tests of the library on concrete values.
