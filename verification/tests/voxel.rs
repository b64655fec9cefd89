use gaiku::voxel::{get_index_for, Chunk, FaceSide, Voxel, VoxelFace};

#[test]
fn index_and_values() {
  let mut chunk = Chunk::new(4, 5, 6);
  assert_eq!(get_index_for(&chunk, 1, 2, 3), 69);
  assert_eq!((chunk.width(), chunk.height(), chunk.depth()), (4, 5, 6));
  assert!(chunk.is_empty(1, 2, 3));
  chunk.set(1, 2, 3, 255);
  chunk.set_color(1, 2, 3, [1, 2, 3, 4]);
  assert!(!chunk.is_empty(1, 2, 3));
  assert!(chunk.is_empty(4, 0, 0));
  assert_eq!(chunk.get(1, 2, 3), 255);
  assert_eq!(chunk.get_color(1, 2, 3), Some([1, 2, 3, 4]));
  assert_eq!(chunk.get_color(0, 0, 0), Some([0, 0, 0, 0]));
  // Past the end of the colors.
  assert_eq!(chunk.get_color(3, 4, 6), None);
}

#[test]
fn a_lone_voxel_shows_six_faces() {
  let mut chunk = Chunk::new(3, 3, 3);
  chunk.set(1, 1, 1, 1);
  chunk.set_color(1, 1, 1, [9, 9, 9, 9]);
  let faces = Voxel::faces(&chunk);
  let sides: Vec<FaceSide> = faces.iter().map(|f| f.side).collect();
  assert_eq!(
    sides,
    vec![
      FaceSide::Top,
      FaceSide::Bottom,
      FaceSide::Left,
      FaceSide::Right,
      FaceSide::Front,
      FaceSide::Back
    ]
  );
  assert!(faces
    .iter()
    .all(|f| (f.x, f.y, f.z, f.color) == (1, 1, 1, [9, 9, 9, 9])));
}

#[test]
fn faces_between_solid_voxels_are_hidden() {
  let mut chunk = Chunk::new(2, 1, 1);
  chunk.set(0, 0, 0, 1);
  chunk.set(1, 0, 0, 1);
  let faces = Voxel::faces(&chunk);
  assert_eq!(faces.len(), 10);
  assert!(!faces
    .iter()
    .any(|f| (f.x == 0 && f.side == FaceSide::Right) || (f.x == 1 && f.side == FaceSide::Left)));
  assert_eq!(
    faces[0],
    VoxelFace { x: 0, y: 0, z: 0, side: FaceSide::Top, color: [0, 0, 0, 0] }
  );
}

#[test]
fn an_empty_chunk_has_no_faces() {
  let chunk = Chunk::new(4, 4, 4);
  assert!(Voxel::faces(&chunk).is_empty());
}
