# openvoxel

The data structures and formats of a voxel game engine, written in Verus and proved against
their contracts: voxel storage (palettes, packed words, lights, subchunks, chunks, regions and
the world), the world's perfect-hash region resolver (it tries a bounded number of magic
factors and its contract says exactly when it finds one; without one, the world looks its
regions up one by one), the chunk file format and its compression framing, block coverage
masks and tags, registries, the wire protocol's packets and exit codes, and the small
utilities around them (bit RNG, queues, spatial queries).

Layout:

- `src/` — the verified library. Every function there has a contract that Verus checks;
  calls into outside crates (zstd, lz4_flex, bitvec, bytes, priority-queue, rand) go through
  small trusted wrappers whose doc comments say what is assumed of them.
- `tests/` — tests that run the library with the real outside crates linked.
- `app/` — the parts that Verus does not see: file and network I/O, serde and thiserror
  types, floating-point noise, and path handling.
