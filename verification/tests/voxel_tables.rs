use gaiku::voxel_tables::{
  add_to_tables, calc_cube_index, cube_triangles, CubeTriangle, corner_coord, generate_tables, get_verts, vec_add, vec_cross,
  vec_eq, vec_sub, vert_index, ROW_LEN,
};

#[test]
fn cube_index_sets_one_bit_per_inside_corner() {
  assert_eq!(calc_cube_index(&[false; 8]), 0);
  assert_eq!(calc_cube_index(&[true; 8]), 255);
  assert_eq!(
    calc_cube_index(&[true, false, false, false, false, false, false, false]),
    1
  );
  assert_eq!(
    calc_cube_index(&[true, false, true, false, false, true, false, true]),
    165
  );
  assert_eq!(
    calc_cube_index(&[false, false, false, false, false, false, false, true]),
    128
  );
}

#[test]
fn vector_helpers() {
  assert!(vec_eq([1, 2, 3], [1, 2, 3]));
  assert!(!vec_eq([1, 2, 3], [1, 2, 4]));
  assert_eq!(vec_add([1, 0, 2], [0, 1, -1]), [1, 1, 1]);
  assert_eq!(vec_sub([1, 0, 2], [0, 1, -1]), [1, -1, 3]);
  assert_eq!(vec_cross([0, 1, 0], [0, 0, 1]), [1, 0, 0]);
  assert_eq!(vec_cross([1, 2, 3], [4, 5, 6]), [-3, 6, -3]);
}

#[test]
fn corners_and_face_points() {
  assert_eq!(corner_coord(0), [0, 0, 0]);
  assert_eq!(corner_coord(6), [2, 2, 2]);
  assert_eq!(vert_index([1, 0, 0]), Some(0));
  assert_eq!(vert_index([1, 1, 1]), Some(18));
  assert_eq!(vert_index([0, 0, 0]), None);
}

#[test]
fn face_between_neighbouring_corners() {
  // Corners 0 and 1 share the face x = 1; the face points are listed with
  // texture coordinates in half texels.
  assert_eq!(
    get_verts([0, 0, 0], [2, 0, 0]),
    Some(([0, 16, 12, 18], [[1, 1], [0, 1], [1, 0], [0, 0]], 1))
  );
  assert_eq!(
    get_verts([0, 0, 0], [0, 2, 0]),
    Some(([3, 15, 16, 18], [[1, 1], [1, 2], [2, 1], [2, 2]], 0))
  );
  // Diagonal corners and a corner with itself share no face.
  assert_eq!(get_verts([0, 0, 0], [2, 2, 2]), None);
  assert_eq!(get_verts([0, 0, 0], [2, 2, 0]), None);
  assert_eq!(get_verts([2, 0, 2], [2, 0, 2]), None);
}

#[test]
fn add_to_tables_records_two_triangles() {
  let mut edge_table = [0u32; 256];
  let mut triangles: Vec<Vec<i8>> = vec![vec![]; 256];
  let mut uvs: Vec<Vec<[i8; 2]>> = vec![vec![]; 256];
  let mut corners: Vec<Vec<i8>> = vec![vec![]; 256];
  let verts = [0, 16, 12, 18];
  let uv = [[1, 1], [0, 1], [1, 0], [0, 0]];
  add_to_tables(true, true, 3, verts, uv, 1, &mut edge_table, &mut triangles, &mut uvs, &mut corners);
  assert_eq!(edge_table[3], 0);
  assert!(triangles[3].is_empty());
  add_to_tables(true, false, 3, verts, uv, 1, &mut edge_table, &mut triangles, &mut uvs, &mut corners);
  assert_eq!(edge_table[3], (1 << 0) | (1 << 16) | (1 << 12) | (1 << 18));
  assert_eq!(triangles[3], vec![0, 16, 12, 12, 16, 18]);
  assert_eq!(uvs[3], vec![[1, 1], [0, 1], [1, 0], [1, 0], [0, 1], [0, 0]]);
  assert_eq!(corners[3], vec![1; 6]);
  add_to_tables(false, true, 4, verts, uv, 0, &mut edge_table, &mut triangles, &mut uvs, &mut corners);
  assert_eq!(triangles[4], vec![0, 12, 16, 16, 12, 18]);
  assert_eq!(uvs[4], vec![[1, 1], [1, 0], [0, 1], [0, 1], [1, 0], [0, 0]]);
}

fn padded<T: Clone>(mut row: Vec<T>, fill: T) -> Vec<T> {
  while row.len() < ROW_LEN {
    row.push(fill.clone());
  }
  row
}

#[test]
fn generated_tables_rows() {
  let tables = generate_tables();
  assert_eq!(tables.triangle_table.len(), 256);
  for c in 0..256 {
    assert_eq!(tables.triangle_table[c].len(), ROW_LEN);
    assert_eq!(tables.uv_table[c].len(), ROW_LEN);
    assert_eq!(tables.corner_table[c].len(), ROW_LEN);
  }
  // Nothing to draw for an empty or a full cube.
  assert_eq!(tables.edge_table[0], 0);
  assert_eq!(tables.edge_table[255], 0);
  assert_eq!(tables.triangle_table[0], vec![-1; ROW_LEN]);
  assert_eq!(tables.uv_table[255], vec![[-2, -2]; ROW_LEN]);

  assert_eq!(tables.edge_table[1], 364809);
  assert_eq!(
    tables.triangle_table[1],
    padded(
      vec![0, 16, 12, 12, 16, 18, 3, 15, 16, 16, 15, 18, 8, 12, 15, 15, 12, 18],
      -1
    )
  );
  assert_eq!(
    tables.uv_table[1],
    padded(
      vec![
        [1, 1], [0, 1], [1, 0], [1, 0], [0, 1], [0, 0], [1, 1], [1, 2], [2, 1], [2, 1], [1, 2],
        [2, 2], [1, 0], [1, 0], [2, 0], [2, 0], [1, 0], [2, 0]
      ],
      [-2, -2]
    )
  );
  assert_eq!(
    tables.corner_table[1],
    padded(vec![1, 1, 1, 1, 1, 1, 0, 0, 0, 0, 0, 0, 4, 4, 4, 4, 4, 4], -1)
  );

  assert_eq!(tables.edge_table[128], 444608);
  assert_eq!(
    tables.triangle_table[128],
    padded(
      vec![11, 14, 15, 15, 14, 18, 7, 15, 17, 17, 15, 18, 6, 17, 14, 14, 17, 18],
      -1
    )
  );
  assert_eq!(
    tables.corner_table[128],
    padded(vec![3, 3, 3, 3, 3, 3, 7, 7, 7, 7, 7, 7, 6, 6, 6, 6, 6, 6], -1)
  );

  // The checkerboard cube uses all 12 faces: its row is full.
  assert_eq!(tables.edge_table[165], (1 << 19) - 1);
  assert!(tables.triangle_table[165].iter().all(|v| *v != -1));
  assert_eq!(&tables.triangle_table[165][66..72], &[6, 17, 14, 14, 17, 18]);
}

#[test]
fn every_triangle_entry_uses_a_face_point_of_its_row() {
  let tables = generate_tables();
  for c in 0..256 {
    for &v in tables.triangle_table[c].iter() {
      if v != -1 {
        assert!((0..19).contains(&v));
        assert_ne!(tables.edge_table[c] & (1u32 << v), 0);
      }
    }
  }
}

#[test]
fn cube_triangles_read_rows_up_to_the_padding() {
  let tables = generate_tables();
  assert!(cube_triangles(&tables, 0).is_empty());
  assert!(cube_triangles(&tables, 255).is_empty());
  let triangles = cube_triangles(&tables, 1);
  assert_eq!(triangles.len(), 6);
  assert_eq!(
    triangles[0],
    CubeTriangle { points: [0, 16, 12], uvs: [[1, 1], [0, 1], [1, 0]], corner: 1 }
  );
  assert_eq!(
    triangles[5],
    CubeTriangle { points: [15, 12, 18], uvs: [[2, 0], [1, 0], [2, 0]], corner: 4 }
  );
}
