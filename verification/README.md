# qsc_render

The index topology of a quadrilateralized spherical cube (QSC) and the
decisions a Vulkan renderer of that sphere takes on what the driver and the
window report, verified with Verus.

- `src/zorder.rs`: Morton (Z-order) codes of grid coordinates, with the
  proofs that encoding and decoding are inverse and that codes are
  injective and monotone.
- `src/sphere.rs`: vertex layout of the sphere (six `2^s` by `2^s` face grids
  and two poles), the neighbour lookup across face edges, and the proof that
  neighbours inside a face are symmetric.
- `src/mesh.rs`: the index buffer (two triangles per grid cell), with the
  proofs that every entry is a vertex and every vertex is an entry. Both
  need the vertex indices to fit the buffer's `u32` entries, which holds up
  to 14 subdivisions; at 15 the original truncates them.
- `src/device.rs`, `src/swapchain.rs`, `src/shader.rs`, `src/controls.rs`:
  choice of GPU, queue families, memory type, surface format, swap extent,
  image count and frame in flight; SPIR-V words; color-mode keys.
- `app/`: the Vulkan program around the library: window and event loop,
  Vulkan calls through `ash`, vertex positions (floating point), camera
  matrices, and file I/O.
- `tests/`: tests of the library on concrete values.
