# gaiku

A verified core for voxel terrain: textures and tiled texture atlases, dense
and sparse voxel chunks, a chunker that cuts a voxel field into chunks, the
face tables of the voxel baker, cube meshes of colored voxel chunks, and the
conversion of Goxel files into chunks and a color atlas.

- `src/` is the library, written in Verus: every function carries a contract
  and is proved against it, and the proof functions state the laws the
  library keeps (no voxel is lost by chunking, a read gives back the last
  write, a cube mesh shows exactly the open faces, each palette color fills
  its atlas tile, ...). Goxel files are parsed by the `gox` crate and their
  block images decoded by the `png` crate, each behind a trusted function
  whose contract names its result; a verified check of the file's framing
  decides beforehand whether the parser reads the bytes without panicking.
- `tests/` exercises the library on concrete values.
- `app/` holds what is not verified: reading files from disk and writing PNG
  files, floating-point texture coordinates and mesh
  geometry, and printing the baker's tables as Rust source.

Voxel samples are 32-bit floats; the library stores and compares their bit
patterns (`Sample`) and never computes with them.
