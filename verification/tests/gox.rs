use gaiku::chunk::{Atlasify, Chunkify, Sizable};
use gaiku::gox::{is_loadable, Gox, GoxPlacement, GoxReader, GoxScene};
use gaiku::gox_file::check_gox_file;
use gaiku::texture::{Texture2d, Texturify2d};

fn block_with(voxels: &[(usize, usize, usize, [u8; 4])]) -> Vec<[u8; 4]> {
  let mut colors = vec![[0u8; 4]; 4096];
  for &(x, y, z, c) in voxels {
    colors[x + 16 * y + 256 * z] = c;
  }
  colors
}

fn two_block_scene() -> GoxScene {
  let red = [255, 0, 0, 255];
  let blue = [0, 0, 255, 255];
  GoxScene {
    blocks: vec![
      block_with(&[(0, 0, 0, red), (1, 0, 0, blue), (0, 0, 1, red)]),
      block_with(&[(15, 15, 15, blue)]),
    ],
    placements: vec![
      GoxPlacement { block_index: 0, x: -16, y: 0, z: 0 },
      GoxPlacement { block_index: 1, x: 0, y: 16, z: 0 },
    ],
  }
}

#[test]
fn load_paints_and_chunks_the_scene() {
  let scene = two_block_scene();
  let (chunks, atlas) = GoxReader::load::<Texture2d>(&scene);
  // The field spans x in [-16, 16], y in [0, 32], z in [0, 16]: 33 x 33 x 17
  // voxels; Goxel's z becomes the field's y: 33 wide, 17 high, 33 deep.
  // Chunks of 16: 3 x 2 x 3.
  assert_eq!(chunks.len(), 18);
  assert_eq!(chunks[0].location, [0, 0, 0]);
  assert_eq!(chunks[17].location, [32, 16, 32]);
  let first = &chunks[0].chunk;
  assert_eq!((first.width(), first.height(), first.depth()), (17, 17, 17));
  let solid = 1.0f32.to_bits();
  let empty = (-1.0f32).to_bits();
  // Block 0's voxel (0, 0, 0) is at field (0, 0, 0) with the first color.
  assert_eq!(first.get(0, 0, 0), solid);
  assert_eq!(first.get_atlas(0, 0, 0), 0);
  // Voxel (1, 0, 0) has the second color.
  assert_eq!(first.get(1, 0, 0), solid);
  assert_eq!(first.get_atlas(1, 0, 0), 1);
  // Goxel's (0, 0, 1) is the field's (0, 1, 0).
  assert_eq!(first.get(0, 1, 0), solid);
  assert_eq!(first.get_atlas(0, 1, 0), 0);
  assert_eq!(first.get(0, 0, 1), empty);
  assert_eq!(first.get(2, 0, 0), empty);
  // Block 1's voxel (15, 15, 15) lands at field (31, 15, 31): chunk
  // (1, 0, 1), which starts at (16, 0, 16), holds it at (15, 15, 15).
  assert_eq!(chunks[1 * 2 * 3 + 0 * 3 + 1].location, [16, 0, 16]);
  let c = &chunks[1 * 2 * 3 + 0 * 3 + 1].chunk;
  assert_eq!(c.get(15, 15, 15), solid);
  assert_eq!(c.get_atlas(15, 15, 15), 1);
  let atlas = atlas.expect("the scene has colors");
  let tex = atlas.get_texture();
  assert_eq!((tex.width(), tex.height()), (48, 48));
  let data = tex.get_data();
  // Tile 0 is at (1, 46), tile 1 at (4, 46).
  let at = |x: usize, y: usize| {
    let o = 4 * x + 4 * 48 * y;
    [data[o], data[o + 1], data[o + 2], data[o + 3]]
  };
  assert_eq!(at(1, 46), [255, 0, 0, 255]);
  assert_eq!(at(0, 45), [255, 0, 0, 255]);
  assert_eq!(at(4, 46), [0, 0, 255, 255]);
  assert_eq!(at(7, 46), [0, 0, 0, 0]);
}

#[test]
fn a_scene_without_colors_has_no_atlas() {
  let scene = GoxScene {
    blocks: vec![vec![[0u8; 4]; 4096]],
    placements: vec![GoxPlacement { block_index: 0, x: 3, y: 4, z: 5 }],
  };
  let (chunks, atlas) = GoxReader::load::<Texture2d>(&scene);
  assert!(atlas.is_none());
  // A 17-voxel cube: two chunks along each axis, the second one voxel thick.
  assert_eq!(chunks.len(), 8);
  assert_eq!(chunks[7].chunk.width(), 1);
  assert_eq!(chunks[7].location, [16, 16, 16]);
  for c in chunks.iter() {
    assert!(c.chunk.values().iter().all(|c| *c == (0, (-1.0f32).to_bits())));
  }
}

#[test]
fn from_scene_gives_one_chunk_per_placement() {
  let scene = two_block_scene();
  let chunks = Gox::from_scene(&scene);
  assert_eq!(chunks.len(), 2);
  assert_eq!(chunks[0].get(0, 0, 0), 255);
  assert_eq!(chunks[0].get_color(0, 0, 0), Some([255, 0, 0, 255]));
  assert_eq!(chunks[0].get(0, 0, 1), 255);
  assert_eq!(chunks[0].get(0, 1, 0), 0);
  assert!(chunks[0].is_empty(5, 5, 5));
  assert_eq!(chunks[1].get(15, 15, 15), 255);
  assert_eq!(chunks[1].get_color(15, 15, 15), Some([0, 0, 255, 255]));
  assert_eq!(chunks[1].get_color(0, 0, 0), Some([0, 0, 0, 0]));
}

#[test]
fn every_voxel_is_empty_or_solid_with_a_palette_index() {
  let scene = two_block_scene();
  let (chunks, atlas) = GoxReader::load::<Texture2d>(&scene);
  let palette_len = 2;
  assert!(atlas.is_some());
  let solid = 1.0f32.to_bits();
  let empty = (-1.0f32).to_bits();
  let mut solid_count = 0;
  for c in chunks.iter() {
    for &(index, sample) in c.chunk.values().iter() {
      if sample == solid {
        assert!((index as usize) < palette_len);
        solid_count += 1;
      } else {
        assert_eq!((index, sample), (0, empty));
      }
    }
  }
  // Four solid voxels, some of them seen by more than one chunk.
  assert!(solid_count >= 4);
}

#[test]
fn is_loadable_accepts_a_well_formed_scene() {
  assert!(is_loadable(&two_block_scene()));
}

#[test]
fn is_loadable_refuses_a_scene_without_placements() {
  let scene = GoxScene { blocks: vec![vec![[0u8; 4]; 4096]], placements: vec![] };
  assert!(!is_loadable(&scene));
}

#[test]
fn is_loadable_refuses_a_missing_block() {
  let mut scene = two_block_scene();
  scene.placements[1].block_index = 2;
  assert!(!is_loadable(&scene));
}

#[test]
fn is_loadable_refuses_a_short_block() {
  let mut scene = two_block_scene();
  scene.blocks[1].pop();
  assert!(!is_loadable(&scene));
}

#[test]
fn is_loadable_refuses_bounds_that_overflow() {
  let mut scene = two_block_scene();
  scene.placements[1].x = i32::MAX - 10;
  assert!(!is_loadable(&scene));
}

#[test]
fn is_loadable_refuses_more_than_256_colors() {
  let mut colors = vec![[0u8; 4]; 4096];
  for i in 0..257 {
    colors[i] = [(i % 256) as u8, (i / 256) as u8, 7, 255];
  }
  let scene = GoxScene {
    blocks: vec![colors.clone()],
    placements: vec![GoxPlacement { block_index: 0, x: 0, y: 0, z: 0 }],
  };
  assert!(!is_loadable(&scene));
  colors[256] = [0, 0, 0, 0];
  let scene = GoxScene {
    blocks: vec![colors],
    placements: vec![GoxPlacement { block_index: 0, x: 0, y: 0, z: 0 }],
  };
  assert!(is_loadable(&scene));
}

fn int_bytes(v: i32) -> [u8; 4] {
  v.to_le_bytes()
}

fn push_chunk(out: &mut Vec<u8>, kind: &[u8; 4], data: &[u8]) {
  out.extend_from_slice(kind);
  out.extend_from_slice(&int_bytes(data.len() as i32));
  out.extend_from_slice(data);
  out.extend_from_slice(&int_bytes(0));
}

/// A Goxel file with one block whose voxel (0, 0, 0) is red, placed once at
/// `(x, y, z)` under the given block index.
fn gox_file(block_index: i32, x: i32, y: i32, z: i32) -> Vec<u8> {
  let mut pixels = vec![0u8; 64 * 64 * 4];
  pixels[0..4].copy_from_slice(&[255, 0, 0, 255]);
  let mut image = Vec::new();
  {
    let mut encoder = png::Encoder::new(&mut image, 64, 64);
    encoder.set_color(png::ColorType::RGBA);
    encoder.set_depth(png::BitDepth::Eight);
    let mut writer = encoder.write_header().unwrap();
    writer.write_image_data(&pixels).unwrap();
  }

  let mut img = Vec::new();
  img.extend_from_slice(&int_bytes(3));
  img.extend_from_slice(b"box");
  img.extend_from_slice(&int_bytes(64));
  for i in 0..4 {
    for j in 0..4 {
      let v: f32 = if i == j { 8.0 } else { 0.0 };
      img.extend_from_slice(&v.to_le_bytes());
    }
  }

  let mut layer = Vec::new();
  layer.extend_from_slice(&int_bytes(1));
  for v in [block_index, x, y, z, 0] {
    layer.extend_from_slice(&int_bytes(v));
  }

  let mut out = Vec::new();
  out.extend_from_slice(b"GOX ");
  out.extend_from_slice(&int_bytes(2));
  push_chunk(&mut out, b"BL16", &image);
  push_chunk(&mut out, b"IMG ", &img);
  push_chunk(&mut out, b"LAYR", &layer);
  out
}

#[test]
fn from_bytes_reads_the_blocks_of_a_file() {
  let (chunks, placements) = Gox::from_bytes(gox_file(0, 4, 5, 6)).unwrap();
  assert_eq!(chunks.len(), 1);
  assert_eq!(placements.len(), 1);
  assert_eq!((placements[0].x, placements[0].y, placements[0].z), (4, 5, 6));
  assert_eq!(chunks[0].get(0, 0, 0), 255);
  assert_eq!(chunks[0].get_color(0, 0, 0), Some([255, 0, 0, 255]));
  assert!(chunks[0].is_empty(1, 0, 0));
}

#[test]
fn from_bytes_refuses_a_placement_without_block() {
  assert!(Gox::from_bytes(gox_file(3, 0, 0, 0)).is_none());
}

#[test]
fn load_bytes_paints_the_scene_of_a_file() {
  let (chunks, atlas) = GoxReader::load_bytes::<Texture2d>(gox_file(0, 4, 5, 6)).unwrap();
  // One block: a 17-voxel cube, two chunks along each axis.
  assert_eq!(chunks.len(), 8);
  assert_eq!(chunks[0].chunk.get(0, 0, 0), 1.0f32.to_bits());
  assert_eq!(chunks[0].chunk.get_atlas(0, 0, 0), 0);
  assert_eq!(chunks[0].chunk.get(1, 0, 0), (-1.0f32).to_bits());
  let texture = atlas.unwrap().get_texture();
  let data = texture.get_data();
  let at = |x: usize, y: usize| -> [u8; 4] {
    let i = 4 * (x + 48 * y);
    [data[i], data[i + 1], data[i + 2], data[i + 3]]
  };
  assert_eq!(at(1, 46), [255, 0, 0, 255]);
  assert_eq!(at(0, 45), [255, 0, 0, 255]);
  assert_eq!(at(3, 46), [0, 0, 0, 0]);
}

#[test]
fn load_bytes_refuses_a_placement_without_block() {
  assert!(GoxReader::load_bytes::<Texture2d>(gox_file(1, 0, 0, 0)).is_none());
}

fn header() -> Vec<u8> {
  let mut out = Vec::new();
  out.extend_from_slice(b"GOX ");
  out.extend_from_slice(&int_bytes(2));
  out
}

fn dict_entry(out: &mut Vec<u8>, key: &[u8], value: &[u8]) {
  out.extend_from_slice(&int_bytes(key.len() as i32));
  out.extend_from_slice(key);
  out.extend_from_slice(&int_bytes(value.len() as i32));
  out.extend_from_slice(value);
}

#[test]
fn check_accepts_a_well_formed_file() {
  assert!(check_gox_file(&gox_file(0, 4, 5, 6)));
  assert!(check_gox_file(&header()));
}

#[test]
fn check_refuses_a_short_header() {
  assert!(!check_gox_file(&b"GOX ".to_vec()));
  assert!(!check_gox_file(&vec![]));
}

#[test]
fn check_refuses_a_chunk_cut_short() {
  let mut bytes = header();
  bytes.extend_from_slice(b"BL16");
  assert!(!check_gox_file(&bytes));
  let mut bytes = header();
  push_chunk(&mut bytes, b"ABCD", &[1, 2, 3]);
  bytes.truncate(bytes.len() - 2);
  assert!(!check_gox_file(&bytes));
  assert!(GoxReader::load_bytes::<Texture2d>(bytes.clone()).is_none());
  assert!(Gox::from_bytes(bytes).is_none());
}

#[test]
fn check_stops_at_zero_type_bytes_and_skips_non_utf8_types() {
  let mut bytes = header();
  bytes.extend_from_slice(&[0xFF, 0xFE, 0xFD, 0xFC]);
  push_chunk(&mut bytes, b"ABCD", &[1, 2, 3]);
  bytes.extend_from_slice(&[0, 0, 0, 0]);
  bytes.extend_from_slice(b"garbage");
  assert!(check_gox_file(&bytes));
}

#[test]
fn check_refuses_an_image_without_box() {
  let mut img = Vec::new();
  dict_entry(&mut img, b"other", &[1, 2]);
  let mut bytes = header();
  push_chunk(&mut bytes, b"IMG ", &img);
  assert!(!check_gox_file(&bytes));
  let mut img = Vec::new();
  dict_entry(&mut img, b"box", &[0; 12]);
  let mut bytes = header();
  push_chunk(&mut bytes, b"IMG ", &img);
  assert!(!check_gox_file(&bytes));
  let mut img = Vec::new();
  dict_entry(&mut img, b"box", &[0; 16]);
  let mut bytes = header();
  push_chunk(&mut bytes, b"IMG ", &img);
  assert!(check_gox_file(&bytes));
}

fn layer_with(entries: &[(&[u8], &[u8])]) -> Vec<u8> {
  let mut layer = Vec::new();
  layer.extend_from_slice(&int_bytes(0));
  for (k, v) in entries {
    dict_entry(&mut layer, k, v);
  }
  let mut bytes = header();
  push_chunk(&mut bytes, b"LAYR", &layer);
  bytes
}

#[test]
fn check_reads_layer_values() {
  assert!(check_gox_file(&layer_with(&[(b"name", b"terrain"), (b"id", &[1, 0, 0, 0])])));
  assert!(!check_gox_file(&layer_with(&[(b"name", &[0xC3, 0x28])])));
  assert!(!check_gox_file(&layer_with(&[(b"img-path", &[0xFF])])));
  assert!(!check_gox_file(&layer_with(&[(b"shape", &[1, 2])])));
  assert!(!check_gox_file(&layer_with(&[(b"box", &[0; 8])])));
  // A later entry replaces an earlier one with the same key.
  assert!(check_gox_file(&layer_with(&[(b"id", &[1]), (b"id", &[1, 2, 3, 4])])));
}

#[test]
fn check_refuses_a_block_count_that_overflows() {
  let mut layer = Vec::new();
  layer.extend_from_slice(&int_bytes(i32::MAX / 10));
  let mut bytes = header();
  push_chunk(&mut bytes, b"LAYR", &layer);
  assert!(!check_gox_file(&bytes));
}

#[test]
fn check_refuses_a_block_that_is_not_an_image_of_4096_pixels() {
  let mut image = Vec::new();
  {
    let mut encoder = png::Encoder::new(&mut image, 64, 65);
    encoder.set_color(png::ColorType::RGBA);
    encoder.set_depth(png::BitDepth::Eight);
    let mut writer = encoder.write_header().unwrap();
    writer.write_image_data(&vec![0u8; 64 * 65 * 4]).unwrap();
  }
  let mut bytes = header();
  push_chunk(&mut bytes, b"BL16", &image);
  assert!(!check_gox_file(&bytes));
  // Bytes that are no PNG leave the block empty: the reader goes on.
  let mut bytes = header();
  push_chunk(&mut bytes, b"BL16", &[1, 2, 3]);
  assert!(check_gox_file(&bytes));
}
