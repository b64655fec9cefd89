use gaiku::chunk::{Atlasify, AtlasifyMut, Chunkify, ChunkifyMut, Sizable, EMPTY_SAMPLE};
use gaiku::sparse_chunk::SparseChunk;

#[test]
fn unwritten_voxels_are_empty() {
  let chunk = SparseChunk::with_size(4, 5, 6);
  assert_eq!((chunk.width(), chunk.height(), chunk.depth()), (4, 5, 6));
  assert_eq!(chunk.get(1, 2, 3), EMPTY_SAMPLE);
  assert_eq!(chunk.get_atlas(1, 2, 3), 0);
}

#[test]
fn writes_keep_the_other_half_of_the_cell() {
  let mut chunk = SparseChunk::with_size(2, 2, 2);
  chunk.set_atlas(1, 1, 1, 9);
  assert_eq!(chunk.get(1, 1, 1), EMPTY_SAMPLE);
  chunk.set(1, 1, 1, 0.25f32.to_bits());
  assert_eq!(chunk.get_atlas(1, 1, 1), 9);
  assert_eq!(f32::from_bits(chunk.get(1, 1, 1)), 0.25);
  chunk.set(1, 1, 1, 0.5f32.to_bits());
  assert_eq!(f32::from_bits(chunk.get(1, 1, 1)), 0.5);
  assert_eq!(chunk.get_atlas(1, 1, 1), 9);
  // Positions are not bounded by the size.
  chunk.set(100, 0, 0, 7);
  assert_eq!(chunk.get(100, 0, 0), 7);
  assert_eq!(chunk.get(0, 0, 0), EMPTY_SAMPLE);
}
