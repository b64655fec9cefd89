use gaiku::chunk::{
  Atlasify, AtlasifyMut, Chunk, Chunkify, ChunkifyMut, Sizable, EMPTY_SAMPLE,
};

#[test]
fn check_index() {
  let chunk = Chunk::new(4, 4, 4);
  let index = chunk.index(1, 2, 3);
  assert_eq!(index, 57);

  let chunk = Chunk::new(4, 5, 6);
  let index = chunk.index(1, 2, 3);
  assert_eq!(index, 69);
}

#[test]
fn new_chunk_is_empty() {
  let chunk = Chunk::new(2, 3, 4);
  assert_eq!(chunk.values().len(), 24);
  assert!(chunk
    .values()
    .iter()
    .all(|cell| *cell == (0, EMPTY_SAMPLE)));
  assert_eq!(f32::from_bits(chunk.get(1, 2, 3)), -1.0);
  assert_eq!(chunk.get_atlas(1, 2, 3), 0);
}

#[test]
fn set_and_get_keep_value_and_atlas_apart() {
  let mut chunk = Chunk::with_size(3, 3, 3);
  assert_eq!((chunk.width(), chunk.height(), chunk.depth()), (3, 3, 3));
  chunk.set(1, 2, 0, 0.5f32.to_bits());
  chunk.set_atlas(1, 2, 0, 7);
  assert_eq!(f32::from_bits(chunk.get(1, 2, 0)), 0.5);
  assert_eq!(chunk.get_atlas(1, 2, 0), 7);
  chunk.set(1, 2, 0, 2.0f32.to_bits());
  assert_eq!(chunk.get_atlas(1, 2, 0), 7);
  assert_eq!(chunk.values()[chunk.index(1, 2, 0)], (7, 2.0f32.to_bits()));
  assert_eq!(chunk.values()[chunk.index(0, 0, 0)], (0, EMPTY_SAMPLE));
}
