use gaiku::chunk::{Atlasify, AtlasifyMut, Chunk, Chunkify, ChunkifyMut, Sizable, EMPTY_SAMPLE};
use gaiku::chunker::FlatChunker;

#[test]
fn test_flat_chunker() {
  let dimensions = [48, 48, 48];
  let data = vec![1.0f32.to_bits(); dimensions[0] * dimensions[1] * dimensions[2]];

  let mut chunker = FlatChunker::from_array(&data, dimensions[0], dimensions[1], dimensions[2]);
  chunker.set_chunk_size([16, 16, 16]);

  chunker.generate_chunks();
  let results = chunker.get_chunks();

  assert_eq!(results.len(), 27);
}

fn field(w: usize, h: usize, d: usize) -> (Vec<u32>, Vec<u8>) {
  let mut data = vec![];
  let mut atlas = vec![];
  for k in 0..d {
    for j in 0..h {
      for i in 0..w {
        data.push((i + 100 * j + 10000 * k) as u32);
        atlas.push(((i + j + k) % 251) as u8);
      }
    }
  }
  (data, atlas)
}

#[test]
fn last_chunks_are_smaller_and_neighbours_share_a_layer() {
  let (data, atlas) = field(10, 7, 5);
  let mut chunker = FlatChunker::from_array_with_atlas(&data, &atlas, 10, 7, 5);
  chunker.set_chunk_size([4, 4, 4]);
  chunker.generate_chunks();
  let chunks = chunker.get_chunks();
  // ceil(10 / 4) * ceil(7 / 4) * ceil(5 / 4)
  assert_eq!(chunks.len(), 3 * 2 * 2);
  // z varies fastest, then y, then x.
  let locations: Vec<[usize; 3]> = chunks.iter().map(|c| c.location).collect();
  assert_eq!(locations[0], [0, 0, 0]);
  assert_eq!(locations[1], [0, 0, 4]);
  assert_eq!(locations[2], [0, 4, 0]);
  assert_eq!(locations[4], [4, 0, 0]);
  assert_eq!(locations[11], [8, 4, 4]);
  // Extents: one past the chunk size, cut at the end of the field.
  let first = &chunks[0].chunk;
  assert_eq!((first.width(), first.height(), first.depth()), (5, 5, 5));
  let last = &chunks[11].chunk;
  assert_eq!((last.width(), last.height(), last.depth()), (2, 3, 1));
  // Every voxel of every chunk is the voxel of the field at its place.
  for c in chunks.iter() {
    let ch = &c.chunk;
    for z in 0..ch.depth() as usize {
      for y in 0..ch.height() as usize {
        for x in 0..ch.width() as usize {
          let (i, j, k) = (c.location[0] + x, c.location[1] + y, c.location[2] + z);
          let idx = i + j * 10 + k * 70;
          assert_eq!(ch.get(x, y, z), data[idx]);
          assert_eq!(ch.get_atlas(x, y, z), atlas[idx]);
        }
      }
    }
  }
}

#[test]
fn every_voxel_lies_in_a_chunk() {
  let (data, atlas) = field(9, 9, 9);
  let mut chunker = FlatChunker::from_array_with_atlas(&data, &atlas, 9, 9, 9);
  chunker.set_chunk_size([3, 4, 5]);
  chunker.generate_chunks();
  let chunks = chunker.get_chunks();
  assert_eq!(chunks.len(), 3 * 3 * 2);
  for k in 0..9 {
    for j in 0..9 {
      for i in 0..9 {
        let found = chunks.iter().any(|c| {
                  let ch = &c.chunk;
          i >= c.location[0]
            && j >= c.location[1]
            && k >= c.location[2]
            && i - c.location[0] < ch.width() as usize
            && j - c.location[1] < ch.height() as usize
            && k - c.location[2] < ch.depth() as usize
            && ch.get(i - c.location[0], j - c.location[1], k - c.location[2])
              == data[i + 9 * j + 81 * k]
        });
        assert!(found, "voxel ({}, {}, {})", i, j, k);
      }
    }
  }
}

#[test]
fn missing_atlas_indices_are_zero() {
  let (data, _) = field(4, 4, 4);
  let atlas = vec![5u8; 10];
  let mut chunker = FlatChunker::from_array_with_atlas(&data, &atlas, 4, 4, 4);
  chunker.generate_chunks();
  let chunks = chunker.get_chunks();
  assert_eq!(chunks.len(), 1);
  let ch = &chunks[0].chunk;
  assert_eq!(ch.get_atlas(1, 2, 0), 5);
  assert_eq!(ch.get_atlas(2, 2, 0), 0);
  assert_eq!(ch.get_atlas(3, 3, 3), 0);
}

#[test]
fn chunks_can_be_changed_in_place() {
  let data = vec![0u32; 8];
  let mut chunker = FlatChunker::from_array(&data, 2, 2, 2);
  chunker.generate_chunks();
  {
    let chunks = chunker.get_chunks_mut();
    chunks[0].chunk.set(1, 1, 1, 42);
  }
  assert_eq!(chunker.get_chunks()[0].chunk.get(1, 1, 1), 42);
}

#[test]
fn from_chunk_keeps_each_voxel_in_place() {
  let mut source = Chunk::new(2, 3, 4);
  for x in 0..2 {
    for y in 0..3 {
      for z in 0..4 {
        source.set(x, y, z, (x * 100 + y * 10 + z) as u32);
        source.set_atlas(x, y, z, (x + y + z) as u8);
      }
    }
  }
  let mut chunker = FlatChunker::from_chunk(&source);
  chunker.set_chunk_size([100, 100, 100]);
  chunker.generate_chunks();
  let chunks = chunker.get_chunks();
  assert_eq!(chunks.len(), 1);
  let ch = &chunks[0].chunk;
  // The field holds voxel (x, y, z) of the source at x + 2 * y + 6 * z.
  let mut expected = vec![];
  for z in 0..4u32 {
    for y in 0..3u32 {
      for x in 0..2u32 {
        expected.push(x * 100 + y * 10 + z);
      }
    }
  }
  let got: Vec<u32> = ch.values().iter().map(|c| c.1).collect();
  assert_eq!(got, expected);
  for x in 0..2 {
    for y in 0..3 {
      for z in 0..4 {
        assert_eq!(ch.get(x, y, z), (x * 100 + y * 10 + z) as u32);
        assert_eq!(ch.get_atlas(x, y, z), (x + y + z) as u8);
      }
    }
  }
  let _ = EMPTY_SAMPLE;
}
