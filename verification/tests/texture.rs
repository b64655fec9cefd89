use gaiku::texture::{index_to_xy, Texture2d, TextureAtlas2d, Texturify2d, COLS, ROWS};
use std::convert::TryInto;

#[test]
fn test_index_to_xy() {
  assert_eq!((0, 1), index_to_xy(0 + 1 * COLS as u8));
  assert_eq!((1, 0), index_to_xy(1 + 0 * COLS as u8));
  assert_eq!((15, 1), index_to_xy(15 + 1 * COLS as u8));
  assert_eq!((12, 15), index_to_xy(12 + 15 * COLS as u8));
  assert_eq!((15, 15), index_to_xy(15 + 15 * COLS as u8));
}

#[test]
fn test_texture_size() {
  let tile_size = 16;
  let atlas = TextureAtlas2d::<Texture2d>::new_with_padding(tile_size, 0);

  assert_eq!(256, atlas.get_texture().width());
  assert_eq!(256, atlas.get_texture().height());
}

#[test]
fn test_texture_atlas_created_tex_size() {
  let tile_size = 3;
  let atlas = TextureAtlas2d::<Texture2d>::new_with_padding(tile_size, 0);
  let data_size = atlas.get_texture().get_data().len();
  assert_eq!(
    data_size,
    (tile_size * COLS * tile_size * ROWS * 4)
      .try_into()
      .unwrap()
  );

  let tile_size = 2;
  let atlas = TextureAtlas2d::<Texture2d>::new_with_padding(tile_size, 0);
  let data_size = atlas.get_texture().get_data().len();
  assert_eq!(
    data_size,
    (tile_size * COLS * tile_size * ROWS * 4)
      .try_into()
      .unwrap()
  );

  let tile_size = 5;
  let tile_pad = 3;
  let tile_patch_size = tile_size + tile_pad * 2;
  let atlas = TextureAtlas2d::<Texture2d>::new_with_padding(tile_size, tile_pad);
  let data_size = atlas.get_texture().get_data().len();
  assert_eq!(
    data_size,
    (tile_patch_size * COLS * tile_patch_size * ROWS * 4)
      .try_into()
      .unwrap()
  );
}

fn zeros(n: usize) -> Vec<u8> {
  std::iter::repeat(0).take(n).collect::<Vec<_>>()
}

const TEST_PIXELS: [[u8; 4]; 9] = [
  [10, 20, 30, 40], // Row 1
  [11, 21, 31, 41],
  [12, 22, 32, 42],
  [110, 120, 130, 140], // Row 2
  [111, 121, 131, 141],
  [112, 122, 132, 142],
  [210, 220, 230, 240], // Row 3
  [211, 221, 231, 241],
  [212, 222, 232, 242],
];

#[test]
fn test_texture_atlas_pixel_set() {
  let tile_size = 3;
  let index = 1;

  let mut atlas = TextureAtlas2d::<Texture2d>::new_with_padding(tile_size, 0);

  let test_pixels = TEST_PIXELS;

  atlas.set_at_index(index, test_pixels.to_vec());
  let tex = atlas.get_texture();
  let tex_data = tex.get_data();

  let tile_size: usize = tile_size.try_into().unwrap();
  let cols: usize = COLS.try_into().unwrap();
  let rows: usize = ROWS.try_into().unwrap();

  let mut test_data: Vec<u8> = vec![];
  // Fill with zeros until row that first tile starts
  test_data.append(&mut zeros(tile_size * cols * (rows - 1) * tile_size * 4));
  // Fill with zeros until the first tile
  test_data.append(&mut zeros(tile_size * 4));
  // Append first row of the tile
  test_data.append(&mut test_pixels[0].to_vec());
  test_data.append(&mut test_pixels[1].to_vec());
  test_data.append(&mut test_pixels[2].to_vec());
  // Fill with zeros until the next row
  test_data.append(&mut zeros(tile_size * (cols - 1) * 4));
  // Append the second row of pixels to the tile
  test_data.append(&mut test_pixels[3].to_vec());
  test_data.append(&mut test_pixels[4].to_vec());
  test_data.append(&mut test_pixels[5].to_vec());
  // Fill with zeros until the next row
  test_data.append(&mut zeros(tile_size * (cols - 1) * 4));
  // Append the third row of pixels to the tile
  test_data.append(&mut test_pixels[6].to_vec());
  test_data.append(&mut test_pixels[7].to_vec());
  test_data.append(&mut test_pixels[8].to_vec());
  // pad remaining bytes with zeros
  test_data.append(&mut zeros(tile_size * (cols - 2) * 4));

  assert_eq!(tex_data, &test_data);
}

#[test]
fn test_texture_atlas_pixel_set_ww_pad() {
  let tile_size = 3;
  let tile_pad = 1;
  let index = 1;

  let mut atlas = TextureAtlas2d::<Texture2d>::new_with_padding(tile_size, tile_pad);

  let test_pixels = TEST_PIXELS;

  atlas.set_at_index(index, test_pixels.to_vec());
  let tex = atlas.get_texture();
  let tex_data = tex.get_data();

  let tile_size: usize = tile_size.try_into().unwrap();
  let tile_pad: usize = tile_pad.try_into().unwrap();
  let tile_patch_size: usize = tile_size + tile_pad * 2;
  let cols: usize = COLS.try_into().unwrap();
  let rows: usize = ROWS.try_into().unwrap();

  let mut test_data: Vec<u8> = vec![];
  // Fill with zeros until row that first tile starts
  test_data.append(&mut zeros(
    (tile_patch_size) * cols * (tile_patch_size) * (rows - 1) * 4,
  ));
  // Fill the top pads
  test_data.append(&mut zeros((tile_patch_size) * cols * (tile_pad - 1) * 4));
  test_data.append(&mut zeros((tile_patch_size) * 4));
  test_data.append(&mut zeros((tile_pad - 1) * 4));
  test_data.append(&mut test_pixels[0].to_vec());
  test_data.append(&mut test_pixels[0].to_vec());
  test_data.append(&mut test_pixels[1].to_vec());
  test_data.append(&mut test_pixels[2].to_vec());
  test_data.append(&mut test_pixels[2].to_vec());
  test_data.append(&mut zeros((tile_pad - 1) * 4));
  test_data.append(&mut zeros(tile_patch_size * (cols - 2) * 4));
  // Fill with zeros until the first tile
  test_data.append(&mut zeros((tile_patch_size) * 4));
  // Fill with zeros the left pad
  test_data.append(&mut zeros((tile_pad - 1) * 4));
  test_data.append(&mut test_pixels[0].to_vec());
  // Append first row of the tile
  test_data.append(&mut test_pixels[0].to_vec());
  test_data.append(&mut test_pixels[1].to_vec());
  test_data.append(&mut test_pixels[2].to_vec());
  // Fill with zeros the right pad
  test_data.append(&mut test_pixels[2].to_vec());
  test_data.append(&mut zeros((tile_pad - 1) * 4));
  // Fill with zeros until the next row
  test_data.append(&mut zeros((tile_patch_size) * (cols - 1) * 4));
  // Fill with zeros the left pad
  test_data.append(&mut zeros((tile_pad - 1) * 4));
  test_data.append(&mut test_pixels[3].to_vec());
  // Append the second row of pixels to the tile
  test_data.append(&mut test_pixels[3].to_vec());
  test_data.append(&mut test_pixels[4].to_vec());
  test_data.append(&mut test_pixels[5].to_vec());
  // Fill with zeros the right pad
  test_data.append(&mut test_pixels[5].to_vec());
  test_data.append(&mut zeros((tile_pad - 1) * 4));
  // Fill with zeros until the next row
  test_data.append(&mut zeros((tile_patch_size) * (cols - 1) * 4));
  // Fill with zeros the left pad
  test_data.append(&mut zeros((tile_pad - 1) * 4));
  test_data.append(&mut test_pixels[6].to_vec());
  // Append the third row of pixels to the tile
  test_data.append(&mut test_pixels[6].to_vec());
  test_data.append(&mut test_pixels[7].to_vec());
  test_data.append(&mut test_pixels[8].to_vec());
  // Fill with zeros the right pad
  test_data.append(&mut test_pixels[8].to_vec());
  test_data.append(&mut zeros((tile_pad - 1) * 4));
  // pad remaining bytes with zeros
  test_data.append(&mut zeros((tile_patch_size) * (cols - 2) * 4));
  // Fill the bottom pad
  test_data.append(&mut zeros((tile_patch_size) * 4));
  test_data.append(&mut zeros((tile_pad - 1) * 4));
  test_data.append(&mut test_pixels[6].to_vec());
  test_data.append(&mut test_pixels[6].to_vec());
  test_data.append(&mut test_pixels[7].to_vec());
  test_data.append(&mut test_pixels[8].to_vec());
  test_data.append(&mut test_pixels[8].to_vec());
  test_data.append(&mut zeros((tile_pad - 1) * 4));
  test_data.append(&mut zeros(tile_patch_size * (cols - 2) * 4));
  test_data.append(&mut zeros((tile_patch_size) * cols * (tile_pad - 1) * 4));

  assert_eq!(tex_data, &test_data);
}

#[test]
fn test_texture_atlas_pixel_set_all_pixels() {
  let tile_size = 3;
  let tile_pad = 1;

  let tile_patch_size = tile_size + tile_pad;

  let test_pixels: Vec<[u8; 4]> = std::iter::repeat([255, 255, 255, 255])
    .take(tile_patch_size * tile_patch_size)
    .collect();

  let mut atlas = TextureAtlas2d::<Texture2d>::new_with_padding(
    tile_size.try_into().unwrap(),
    tile_pad.try_into().unwrap(),
  );
  for index in 0..(COLS * ROWS) {
    atlas.set_at_index(index.try_into().unwrap(), test_pixels.to_vec());
  }

  let tex = atlas.get_texture();
  let tex_data = tex.get_data();
  assert!(!tex_data.iter().any(|v| *v != 255));
}

#[test]
fn new_texture_is_transparent_black() {
  let tex = Texture2d::new(3, 2);
  assert_eq!(tex.width(), 3);
  assert_eq!(tex.height(), 2);
  assert_eq!(tex.len(), 24);
  assert!(tex.get_data().iter().all(|v| *v == 0));
}

#[test]
fn set_pixel_writes_four_bytes_and_ignores_outside() {
  let mut tex = Texture2d::new(4, 4);
  tex.set_pixel(1, 2, [1, 2, 3, 4]);
  let offset = (1 * 4 + 4 * 2 * 4) as usize;
  assert_eq!(&tex.get_data()[offset..offset + 4], &[1, 2, 3, 4]);
  let before = tex.get_data().clone();
  tex.set_pixel(4, 0, [9, 9, 9, 9]);
  tex.set_pixel(0, 4, [9, 9, 9, 9]);
  assert_eq!(tex.get_data(), &before);
}

#[test]
fn set_pixel_at_index_ignores_a_write_past_the_end() {
  let mut tex = Texture2d::new(2, 1);
  tex.set_pixel_at_index(4, [5, 6, 7, 8]);
  assert_eq!(tex.get_data(), &vec![0, 0, 0, 0, 5, 6, 7, 8]);
  tex.set_pixel_at_index(5, [1, 1, 1, 1]);
  assert_eq!(tex.get_data(), &vec![0, 0, 0, 0, 5, 6, 7, 8]);
}

#[test]
fn get_pixel_reads_at_the_shifted_offset() {
  // The bytes read for (x, y) start at x + 4 + width * y + 4.
  let mut tex = Texture2d::new(4, 4);
  tex.set_pixel_at_index(13, [1, 2, 3, 4]);
  assert_eq!(tex.get_pixel(1, 1), Some([1, 2, 3, 4]));
  assert_eq!(tex.get_pixel(4, 0), None);
}

#[test]
fn with_texture_uses_a_sixteenth_of_the_width() {
  let atlas = TextureAtlas2d::with_texture(Texture2d::new(64, 64));
  let tex = atlas.get_texture();
  assert_eq!(tex.width(), 64);
  let mut atlas = atlas;
  // Tile size 4, no padding: tile 17 is column 1, row 1, at (4, 56).
  atlas.fill_at_index(17, [7, 7, 7, 7]);
  let tex = atlas.get_texture();
  let data = tex.get_data();
  for y in 0..64u32 {
    for x in 0..64u32 {
      let o = (4 * x + 4 * 64 * y) as usize;
      let inside = (4..8).contains(&x) && (56..60).contains(&y);
      let expected: u8 = if inside { 7 } else { 0 };
      assert_eq!(data[o], expected, "texel ({}, {})", x, y);
    }
  }
}

#[test]
fn fill_with_padding_colors_the_ring_around_the_tile() {
  let mut atlas = TextureAtlas2d::<Texture2d>::new(2);
  // Side 16 * (2 + 2) = 64; tile 0 is at (1, 61) with its ring from (0, 60) to (3, 63).
  atlas.fill_at_index(0, [9, 8, 7, 6]);
  let tex = atlas.get_texture();
  assert_eq!(tex.width(), 64);
  let data = tex.get_data();
  for y in 0..64u32 {
    for x in 0..64u32 {
      let o = (4 * x + 4 * 64 * y) as usize;
      let inside = x <= 3 && y >= 60;
      let expected: [u8; 4] = if inside { [9, 8, 7, 6] } else { [0, 0, 0, 0] };
      assert_eq!(&data[o..o + 4], &expected, "texel ({}, {})", x, y);
    }
  }
}

#[test]
fn cloned_atlas_keeps_the_texture() {
  let mut atlas = TextureAtlas2d::<Texture2d>::new_with_padding(1, 0);
  atlas.fill_at_index(255, [1, 2, 3, 4]);
  let copy = atlas.clone();
  assert_eq!(copy.get_texture().get_data(), atlas.get_texture().get_data());
  // Tile 255 is column 15, row 15: texel (15, 0).
  assert_eq!(&copy.get_texture().get_data()[60..64], &[1, 2, 3, 4]);
}

#[test]
fn with_texture_and_size_gives_back_the_texture() {
  let mut tex = Texture2d::new(8, 4);
  tex.set_pixel(3, 2, [5, 6, 7, 8]);
  let expected = tex.get_data().clone();
  let atlas = TextureAtlas2d::with_texture_and_size(tex, 2, 1);
  let back = atlas.get_texture();
  assert_eq!((back.width(), back.height()), (8, 4));
  assert_eq!(back.get_data(), &expected);
  assert_eq!((atlas.tile_size(), atlas.pad_size()), (2, 1));
}
