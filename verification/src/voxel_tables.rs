//! Generation of the lookup tables of the voxel baker.
//!
//! The corners and the face points of a unit cube are addressed on a grid
//! with coordinates 0, 1 and 2 (in half units of the cube's side): corners
//! have only 0 and 2 as coordinates, and the 19 other grid points (edge
//! middles, face centers and the cube center) are the face points.
use vstd::prelude::*;

verus! {

/// Grid coordinates of cube corner `i`, in the order 000, 100, 110, 010, 001, 101, 111, 011.
pub open spec fn corner_spec(i: int) -> [i8; 3] {
    if i == 0 {
        [0, 0, 0]
    } else if i == 1 {
        [2, 0, 0]
    } else if i == 2 {
        [2, 2, 0]
    } else if i == 3 {
        [0, 2, 0]
    } else if i == 4 {
        [0, 0, 2]
    } else if i == 5 {
        [2, 0, 2]
    } else if i == 6 {
        [2, 2, 2]
    } else {
        [0, 2, 2]
    }
}

/// Grid coordinates of cube corner `i`.
pub fn corner_coord(i: u8) -> (r: [i8; 3])
    requires
        i < 8,
    ensures
        r == corner_spec(i as int),
{
    match i {
        0 => [0, 0, 0],
        1 => [2, 0, 0],
        2 => [2, 2, 0],
        3 => [0, 2, 0],
        4 => [0, 0, 2],
        5 => [2, 0, 2],
        6 => [2, 2, 2],
        _ => [0, 2, 2],
    }
}

/// Number of the face point at grid position `p`, if `p` is one: the 12 edge
/// middles (0 to 11), the 6 face centers (12 to 17) and the cube center (18).
pub open spec fn vert_spec(p: [i8; 3]) -> Option<i8> {
    let (x, y, z) = (p[0], p[1], p[2]);
    if x == 1 && y == 0 && z == 0 {
        Some(0)
    } else if x == 2 && y == 1 && z == 0 {
        Some(1)
    } else if x == 1 && y == 2 && z == 0 {
        Some(2)
    } else if x == 0 && y == 1 && z == 0 {
        Some(3)
    } else if x == 1 && y == 0 && z == 2 {
        Some(4)
    } else if x == 2 && y == 1 && z == 2 {
        Some(5)
    } else if x == 1 && y == 2 && z == 2 {
        Some(6)
    } else if x == 0 && y == 1 && z == 2 {
        Some(7)
    } else if x == 0 && y == 0 && z == 1 {
        Some(8)
    } else if x == 2 && y == 0 && z == 1 {
        Some(9)
    } else if x == 2 && y == 2 && z == 1 {
        Some(10)
    } else if x == 0 && y == 2 && z == 1 {
        Some(11)
    } else if x == 1 && y == 0 && z == 1 {
        Some(12)
    } else if x == 2 && y == 1 && z == 1 {
        Some(13)
    } else if x == 1 && y == 2 && z == 1 {
        Some(14)
    } else if x == 0 && y == 1 && z == 1 {
        Some(15)
    } else if x == 1 && y == 1 && z == 0 {
        Some(16)
    } else if x == 1 && y == 1 && z == 2 {
        Some(17)
    } else if x == 1 && y == 1 && z == 1 {
        Some(18)
    } else {
        None
    }
}

/// Number of the face point at grid position `p`, if `p` is one.
pub fn vert_index(p: [i8; 3]) -> (r: Option<i8>)
    ensures
        r == vert_spec(p),
{
    let (x, y, z) = (p[0], p[1], p[2]);
    if x == 1 && y == 0 && z == 0 {
        Some(0)
    } else if x == 2 && y == 1 && z == 0 {
        Some(1)
    } else if x == 1 && y == 2 && z == 0 {
        Some(2)
    } else if x == 0 && y == 1 && z == 0 {
        Some(3)
    } else if x == 1 && y == 0 && z == 2 {
        Some(4)
    } else if x == 2 && y == 1 && z == 2 {
        Some(5)
    } else if x == 1 && y == 2 && z == 2 {
        Some(6)
    } else if x == 0 && y == 1 && z == 2 {
        Some(7)
    } else if x == 0 && y == 0 && z == 1 {
        Some(8)
    } else if x == 2 && y == 0 && z == 1 {
        Some(9)
    } else if x == 2 && y == 2 && z == 1 {
        Some(10)
    } else if x == 0 && y == 2 && z == 1 {
        Some(11)
    } else if x == 1 && y == 0 && z == 1 {
        Some(12)
    } else if x == 2 && y == 1 && z == 1 {
        Some(13)
    } else if x == 1 && y == 2 && z == 1 {
        Some(14)
    } else if x == 0 && y == 1 && z == 1 {
        Some(15)
    } else if x == 1 && y == 1 && z == 0 {
        Some(16)
    } else if x == 1 && y == 1 && z == 2 {
        Some(17)
    } else if x == 1 && y == 1 && z == 1 {
        Some(18)
    } else {
        None
    }
}

/// Whether `v` fits in an `i8`.
pub open spec fn fits_i8(v: int) -> bool {
    i8::MIN <= v <= i8::MAX
}

/// Componentwise equality.
pub fn vec_eq(a: [i8; 3], b: [i8; 3]) -> (r: bool)
    ensures
        r == (a[0] == b[0] && a[1] == b[1] && a[2] == b[2]),
{
    a[0] == b[0] && a[1] == b[1] && a[2] == b[2]
}

/// Componentwise sum.
pub fn vec_add(a_coord: [i8; 3], b_coord: [i8; 3]) -> (r: [i8; 3])
    requires
        fits_i8(a_coord[0] + b_coord[0]),
        fits_i8(a_coord[1] + b_coord[1]),
        fits_i8(a_coord[2] + b_coord[2]),
    ensures
        r[0] == a_coord[0] + b_coord[0],
        r[1] == a_coord[1] + b_coord[1],
        r[2] == a_coord[2] + b_coord[2],
{
    [a_coord[0] + b_coord[0], a_coord[1] + b_coord[1], a_coord[2] + b_coord[2]]
}

/// Componentwise difference.
pub fn vec_sub(a_coord: [i8; 3], b_coord: [i8; 3]) -> (r: [i8; 3])
    requires
        fits_i8(a_coord[0] - b_coord[0]),
        fits_i8(a_coord[1] - b_coord[1]),
        fits_i8(a_coord[2] - b_coord[2]),
    ensures
        r[0] == a_coord[0] - b_coord[0],
        r[1] == a_coord[1] - b_coord[1],
        r[2] == a_coord[2] - b_coord[2],
{
    [a_coord[0] - b_coord[0], a_coord[1] - b_coord[1], a_coord[2] - b_coord[2]]
}

/// Whether the cross product of `a` and `b` can be computed in `i8`.
pub open spec fn cross_fits(a: [i8; 3], b: [i8; 3]) -> bool {
    &&& fits_i8(a[1] * b[2]) && fits_i8(a[2] * b[1]) && fits_i8(a[1] * b[2] - a[2] * b[1])
    &&& fits_i8(a[2] * b[0]) && fits_i8(a[0] * b[2]) && fits_i8(a[2] * b[0] - a[0] * b[2])
    &&& fits_i8(a[0] * b[1]) && fits_i8(a[1] * b[0]) && fits_i8(a[0] * b[1] - a[1] * b[0])
}

/// Cross product.
pub fn vec_cross(a: [i8; 3], b: [i8; 3]) -> (r: [i8; 3])
    requires
        cross_fits(a, b),
    ensures
        r[0] == a[1] * b[2] - a[2] * b[1],
        r[1] == a[2] * b[0] - a[0] * b[2],
        r[2] == a[0] * b[1] - a[1] * b[0],
{
    [a[1] * b[2] - a[2] * b[1], a[2] * b[0] - a[0] * b[2], a[0] * b[1] - a[1] * b[0]]
}


/// Whether `p` is a cube corner: every coordinate is 0 or 2.
pub open spec fn is_corner(p: [i8; 3]) -> bool {
    &&& (p[0] == 0 || p[0] == 2)
    &&& (p[1] == 0 || p[1] == 2)
    &&& (p[2] == 0 || p[2] == 2)
}

/// The two axes other than `axis`, in increasing order.
pub open spec fn other_axes(axis: int) -> (int, int) {
    if axis == 0 {
        (1, 2)
    } else if axis == 1 {
        (0, 2)
    } else {
        (0, 1)
    }
}

/// Middle of the segment from `a` to `b`.
pub open spec fn mid_spec(a: [i8; 3], b: [i8; 3]) -> [i8; 3] {
    [((b[0] + a[0]) / 2) as i8, ((b[1] + a[1]) / 2) as i8, ((b[2] + a[2]) / 2) as i8]
}

/// How many coordinates of `p` equal 1.
pub open spec fn count_ones(p: [i8; 3]) -> int {
    (if p[0] == 1 { 1int } else { 0 }) + (if p[1] == 1 { 1int } else { 0 }) + (if p[2] == 1 {
        1int
    } else {
        0
    })
}

/// The first axis along which `p` has coordinate 1.
pub open spec fn first_one(p: [i8; 3]) -> int {
    if p[0] == 1 {
        0
    } else if p[1] == 1 {
        1
    } else {
        2
    }
}

/// `p` moved by one grid step along axis `i`, towards the middle of the cube.
pub open spec fn step_in(p: [i8; 3], i: int) -> [i8; 3] {
    let v = if p[i] + 1 > 2 {
        p[i] - 1
    } else {
        p[i] + 1
    };
    if i == 0 {
        [v as i8, p[1], p[2]]
    } else if i == 1 {
        [p[0], v as i8, p[2]]
    } else {
        [p[0], p[1], v as i8]
    }
}

/// `a - b`.
pub open spec fn sub_spec(a: [i8; 3], b: [i8; 3]) -> [i8; 3] {
    [(a[0] - b[0]) as i8, (a[1] - b[1]) as i8, (a[2] - b[2]) as i8]
}

/// `a + b`.
pub open spec fn add_spec(a: [i8; 3], b: [i8; 3]) -> [i8; 3] {
    [(a[0] + b[0]) as i8, (a[1] + b[1]) as i8, (a[2] + b[2]) as i8]
}

/// `a x b`.
pub open spec fn cross_spec(a: [i8; 3], b: [i8; 3]) -> [i8; 3] {
    [
        (a[1] * b[2] - a[2] * b[1]) as i8,
        (a[2] * b[0] - a[0] * b[2]) as i8,
        (a[0] * b[1] - a[1] * b[0]) as i8,
    ]
}

/// Absolute value.
pub open spec fn abs(v: int) -> int {
    if v < 0 {
        -v
    } else {
        v
    }
}

/// The axis chosen for a face normal `n`: start with x, and move to a later
/// axis whenever its signed component exceeds the magnitude of the current
/// choice's component (a negative component never wins the comparison).
pub open spec fn normal_axis(n: [i8; 3]) -> int {
    let i1 = if n[1] > abs(n[0] as int) {
        1int
    } else {
        0
    };
    if n[2] > abs(n[i1] as int) {
        2
    } else {
        i1
    }
}

/// Twice the lower corner of the unit cell holding a face whose coordinates
/// sum to `s` along one axis: `2 * floor(s / 8 + 1 / 2) - 1`.
pub open spec fn origin2(s: int) -> int {
    2 * ((s + 4) / 8) - 1
}

/// The four points of the face between corners `a` and `b` (middle of the
/// edge, the two face points beside it, and the cube center), ordered so that
/// the face is clockwise seen from `a`, and which of the two corners the
/// face belongs to (0 for `a`, 1 for `b`).
pub open spec fn face_points(a: [i8; 3], b: [i8; 3]) -> ([[i8; 3]; 4], u8) {
    let mid = mid_spec(a, b);
    let axes = other_axes(first_one(mid));
    let c = step_in(mid, axes.0);
    let d = step_in(mid, axes.1);
    let cross = cross_spec(sub_spec(c, mid), sub_spec(d, mid));
    let m = add_spec(mid, cross);
    if m[0] == a[0] && m[1] == a[1] && m[2] == a[2] {
        ([mid, d, c, [1, 1, 1]], 0)
    } else {
        ([mid, c, d, [1, 1, 1]], 1)
    }
}

/// The outward normal of the face between `a` and `b`.
pub open spec fn face_normal(a: [i8; 3], b: [i8; 3]) -> [i8; 3] {
    let mid = mid_spec(a, b);
    let axes = other_axes(first_one(mid));
    let c = step_in(mid, axes.0);
    let d = step_in(mid, axes.1);
    let cross = cross_spec(sub_spec(c, mid), sub_spec(d, mid));
    [(-cross[0]) as i8, (-cross[1]) as i8, (-cross[2]) as i8]
}

/// Texture coordinates, in half texels, of point `v` of a face whose points
/// sum to `sums`, projected along the axis picked from its normal `n`; the
/// projection is mirrored (`2 - u`) when that normal component is negative.
pub open spec fn uv_of(v: [i8; 3], sums: [int; 3], n: [i8; 3]) -> [i8; 2] {
    let axis = normal_axis(n);
    let uv_axes = other_axes(axis);
    let u0 = v[uv_axes.0] - origin2(sums[uv_axes.0]);
    let u1 = v[uv_axes.1] - origin2(sums[uv_axes.1]);
    if n[axis] < 0 {
        [(2 - u0) as i8, (2 - u1) as i8]
    } else {
        [u0 as i8, u1 as i8]
    }
}

/// Coordinate sums of the four points of a face.
pub open spec fn point_sums(r: [[i8; 3]; 4]) -> [int; 3] {
    [
        r[0][0] + r[1][0] + r[2][0] + r[3][0],
        r[0][1] + r[1][1] + r[2][1] + r[3][1],
        r[0][2] + r[1][2] + r[2][2] + r[3][2],
    ]
}

/// The face between corners `a` and `b` when they are the two ends of one cube
/// edge: the numbers of its four points, their texture coordinates in half
/// texels, and which corner it belongs to. `None` for any other pair.
pub open spec fn face_spec(a: [i8; 3], b: [i8; 3]) -> Option<([i8; 4], [[i8; 2]; 4], u8)> {
    if count_ones(mid_spec(a, b)) != 1 {
        None
    } else {
        let (r, corner) = face_points(a, b);
        let sums = point_sums(r);
        let n = face_normal(a, b);
        Some(
            (
                [
                    vert_spec(r[0]).unwrap(),
                    vert_spec(r[1]).unwrap(),
                    vert_spec(r[2]).unwrap(),
                    vert_spec(r[3]).unwrap(),
                ],
                [uv_of(r[0], sums, n), uv_of(r[1], sums, n), uv_of(r[2], sums, n), uv_of(r[3], sums, n)],
                corner,
            ),
        )
    }
}

/// Whether every coordinate of `p` lies in `lo..=hi`.
pub open spec fn within(p: [i8; 3], lo: int, hi: int) -> bool {
    lo <= p[0] <= hi && lo <= p[1] <= hi && lo <= p[2] <= hi
}

/// The cross product of two vectors with coordinates in `-1..=1` fits in `i8`
/// and has coordinates in `-2..=2`.
proof fn lemma_small_cross(a: [i8; 3], b: [i8; 3])
    requires
        within(a, -1, 1),
        within(b, -1, 1),
    ensures
        cross_fits(a, b),
        within(cross_spec(a, b), -2, 2),
{
    assert forall|x: int, y: int| -1 <= x <= 1 && -1 <= y <= 1 implies -1 <= #[trigger] (x * y)
        <= 1 by {
        assert(-1 <= x * y <= 1) by (nonlinear_arith)
            requires
                -1 <= x <= 1,
                -1 <= y <= 1,
        ;
    }
    assert(-1 <= a[1] * b[2] <= 1);
    assert(-1 <= a[2] * b[1] <= 1);
    assert(-1 <= a[2] * b[0] <= 1);
    assert(-1 <= a[0] * b[2] <= 1);
    assert(-1 <= a[0] * b[1] <= 1);
    assert(-1 <= a[1] * b[0] <= 1);
}

/// The axis picked by the first `j` steps of the scan in [`normal_axis`].
pub open spec fn axis_after(n: [i8; 3], j: int) -> int {
    if j <= 1 {
        0
    } else if j == 2 {
        if n[1] > abs(n[0] as int) {
            1
        } else {
            0
        }
    } else {
        normal_axis(n)
    }
}

/// The four points of the face between two corners joined by an edge, the
/// corner it belongs to, and its outward normal.
fn face_geometry(a_coord: [i8; 3], b_coord: [i8; 3], mid_coord: [i8; 3]) -> (r: (
    [[i8; 3]; 4],
    u8,
    [i8; 3],
))
    requires
        is_corner(a_coord),
        is_corner(b_coord),
        mid_coord == mid_spec(a_coord, b_coord),
        count_ones(mid_coord) == 1,
    ensures
        (r.0, r.1) == face_points(a_coord, b_coord),
        r.2 == face_normal(a_coord, b_coord),
        within(r.0[0], 0, 2) && within(r.0[1], 0, 2) && within(r.0[2], 0, 2) && within(
            r.0[3],
            0,
            2,
        ),
        within(r.2, -2, 2),
{
    assert(within(mid_coord, 0, 2));
    let axis: usize = if mid_coord[0] == 1 {
        0
    } else if mid_coord[1] == 1 {
        1
    } else {
        2
    };
    let permutation: [[usize; 2]; 3] = [[1, 2], [0, 2], [0, 1]];
    let c = {
        let i = permutation[axis][0];
        let mut new_c = mid_coord;
        if new_c[i] + 1 > 2 {
            new_c[i] -= 1;
        } else {
            new_c[i] += 1;
        }
        new_c
    };
    let d = {
        let i = permutation[axis][1];
        let mut new_d = mid_coord;
        if new_d[i] + 1 > 2 {
            new_d[i] -= 1;
        } else {
            new_d[i] += 1;
        }
        new_d
    };
    assert(c == step_in(mid_coord, other_axes(axis as int).0));
    assert(d == step_in(mid_coord, other_axes(axis as int).1));
    assert(within(c, 0, 2) && within(d, 0, 2));
    let c_delta = vec_sub(c, mid_coord);
    let d_delta = vec_sub(d, mid_coord);
    assert(c_delta == sub_spec(c, mid_coord) && d_delta == sub_spec(d, mid_coord));
    assert(within(c_delta, -1, 1) && within(d_delta, -1, 1));
    proof {
        lemma_small_cross(c_delta, d_delta);
    }
    let cross = vec_cross(c_delta, d_delta);
    assert(cross == cross_spec(c_delta, d_delta));
    let mid_cross = vec_add(mid_coord, cross);
    assert(mid_cross == add_spec(mid_coord, cross));
    let result: [[i8; 3]; 4];
    let corner: u8;
    if vec_eq(mid_cross, a_coord) {
        result = [mid_coord, d, c, [1, 1, 1]];
        corner = 0;
    } else {
        result = [mid_coord, c, d, [1, 1, 1]];
        corner = 1;
    }
    let normal: [i8; 3] = [-cross[0], -cross[1], -cross[2]];
    (result, corner, normal)
}

/// Texture coordinates, in half texels, of the four points of a face with
/// outward normal `normal`.
fn face_uvs(result: [[i8; 3]; 4], normal: [i8; 3]) -> (r: [[i8; 2]; 4])
    requires
        within(result[0], 0, 2) && within(result[1], 0, 2) && within(result[2], 0, 2) && within(
            result[3],
            0,
            2,
        ),
        within(normal, -2, 2),
    ensures
        r[0] == uv_of(result[0], point_sums(result), normal),
        r[1] == uv_of(result[1], point_sums(result), normal),
        r[2] == uv_of(result[2], point_sums(result), normal),
        r[3] == uv_of(result[3], point_sums(result), normal),
{
    let permutation: [[usize; 2]; 3] = [[1, 2], [0, 2], [0, 1]];
    let sums: [i8; 3] = [
        result[0][0] + result[1][0] + result[2][0] + result[3][0],
        result[0][1] + result[1][1] + result[2][1] + result[3][1],
        result[0][2] + result[1][2] + result[2][2] + result[3][2],
    ];
    let ghost sums_spec = point_sums(result);
    let origin: [i8; 3] = [
        2 * ((sums[0] + 4) / 8) - 1,
        2 * ((sums[1] + 4) / 8) - 1,
        2 * ((sums[2] + 4) / 8) - 1,
    ];
    let mut i: usize = 0;
    let mut j: usize = 0;
    while j < 3
        invariant
            j <= 3,
            i < 3,
            i == axis_after(normal, j as int),
            within(normal, -2, 2),
        decreases 3 - j,
    {
        let cur = normal[i];
        let mag: i8 = if cur < 0 {
            -cur
        } else {
            cur
        };
        if normal[j] > mag {
            i = j;
        }
        j += 1;
    }
    let uv_invert = normal[i] < 0;
    let uv_axis = permutation[i];
    assert(uv_axis[0] == other_axes(i as int).0 && uv_axis[1] == other_axes(i as int).1);
    let mut uvs: [[i8; 2]; 4] = [[0, 0]; 4];
    let mut v: usize = 0;
    while v < 4
        invariant
            v <= 4,
            forall|w: int| 0 <= w < v ==> uvs[w] == uv_of(result[w], sums_spec, normal),
            i < 3,
            uv_axis[0] < 3,
            uv_axis[1] < 3,
            uv_axis[0] == other_axes(i as int).0,
            uv_axis[1] == other_axes(i as int).1,
            i == normal_axis(normal),
            uv_invert == (normal[i as int] < 0),
            within(result[0], 0, 2) && within(result[1], 0, 2) && within(result[2], 0, 2)
                && within(result[3], 0, 2),
            origin[0] == origin2(sums_spec[0]),
            origin[1] == origin2(sums_spec[1]),
            origin[2] == origin2(sums_spec[2]),
            within(origin, -1, 3),
        decreases 4 - v,
    {
        let p = result[v];
        let u0 = p[uv_axis[0]] - origin[uv_axis[0]];
        let u1 = p[uv_axis[1]] - origin[uv_axis[1]];
        if uv_invert {
            uvs[v] = [2 - u0, 2 - u1];
        } else {
            uvs[v] = [u0, u1];
        }
        v += 1;
    }
    uvs
}

/// The face between two cube corners, when they share an edge: the numbers of
/// its four face points, their texture coordinates in half texels (0, 1 or 2
/// for 0, 0.5 and 1), and which of the two corners it belongs to.
pub fn get_verts(a_coord: [i8; 3], b_coord: [i8; 3]) -> (r: Option<([i8; 4], [[i8; 2]; 4], u8)>)
    requires
        is_corner(a_coord),
        is_corner(b_coord),
    ensures
        r == face_spec(a_coord, b_coord),
        r matches Some(f) ==> is_vert(f.0[0]) && is_vert(f.0[1]) && is_vert(f.0[2]) && is_vert(
            f.0[3],
        ) && (f.2 == 0 || f.2 == 1),
{
    let mid_coord: [i8; 3] = [
        (b_coord[0] + a_coord[0]) / 2,
        (b_coord[1] + a_coord[1]) / 2,
        (b_coord[2] + a_coord[2]) / 2,
    ];
    assert(mid_coord == mid_spec(a_coord, b_coord));
    let mut ones: u8 = 0;
    let mut k: usize = 0;
    while k < 3
        invariant
            k <= 3,
            ones == (if k > 0 && mid_coord[0] == 1 { 1int } else { 0 }) + (if k > 1 && mid_coord[1]
                == 1 { 1int } else { 0 }) + (if k > 2 && mid_coord[2] == 1 { 1int } else { 0 }),
        decreases 3 - k,
    {
        if mid_coord[k] == 1 {
            ones += 1;
        }
        k += 1;
    }
    if ones != 1 {
        return None;
    }
    let (result, corner, normal) = face_geometry(a_coord, b_coord, mid_coord);
    let uvs = face_uvs(result, normal);
    let v0 = vert_index(result[0]);
    let v1 = vert_index(result[1]);
    let v2 = vert_index(result[2]);
    let v3 = vert_index(result[3]);
    assert(v0 is Some && v1 is Some && v2 is Some && v3 is Some);
    Some(([v0.unwrap(), v1.unwrap(), v2.unwrap(), v3.unwrap()], uvs, corner))
}


/// Number of corner pairs `(i, j)` with `i < j` whose first corner is below `i`.
pub open spec fn pair_start(i: int) -> int {
    if i <= 0 {
        0
    } else if i == 1 {
        7
    } else if i == 2 {
        13
    } else if i == 3 {
        18
    } else if i == 4 {
        22
    } else if i == 5 {
        25
    } else if i == 6 {
        27
    } else {
        28
    }
}

/// First corner of the `p`-th pair, pairs `(i, j)` with `i < j` taken in
/// lexicographic order.
pub open spec fn pair_first(p: int) -> int {
    if p < 7 {
        0
    } else if p < 13 {
        1
    } else if p < 18 {
        2
    } else if p < 22 {
        3
    } else if p < 25 {
        4
    } else if p < 27 {
        5
    } else {
        6
    }
}

/// Second corner of the `p`-th pair.
pub open spec fn pair_second(p: int) -> int {
    p - pair_start(pair_first(p)) + pair_first(p) + 1
}

/// The face between the corners of the `p`-th pair, if they share an edge.
#[verifier::opaque]
pub open spec fn pair_face(p: int) -> Option<([i8; 4], [[i8; 2]; 4], u8)> {
    face_spec(corner_spec(pair_first(p)), corner_spec(pair_second(p)))
}

/// Number of pairs among the first `p` whose corners share an edge.
pub open spec fn edge_count(p: int) -> int
    decreases p,
{
    if p <= 0 {
        0
    } else {
        edge_count(p - 1) + if pair_face(p - 1) is Some {
            1int
        } else {
            0
        }
    }
}

/// A cube has 12 edges.
#[verifier::rlimit(60)]
pub proof fn lemma_twelve_edges()
    ensures
        edge_count(28) == 12,
{
    reveal(pair_face);
    reveal_with_fuel(edge_count, 29);
}


/// Triangle entries of the face `v` between two corners with inside/outside
/// states `a` and `b`: two triangles facing away from the inside corner,
/// nothing when both states agree.
pub open spec fn tri_part(a: bool, b: bool, v: [i8; 4]) -> Seq<i8> {
    if a == b {
        seq![]
    } else if a {
        seq![v[0], v[1], v[2], v[2], v[1], v[3]]
    } else {
        seq![v[0], v[2], v[1], v[1], v[2], v[3]]
    }
}

/// Texture coordinates matching [`tri_part`].
pub open spec fn uv_part(a: bool, b: bool, uv: [[i8; 2]; 4]) -> Seq<[i8; 2]> {
    if a == b {
        seq![]
    } else if a {
        seq![uv[0], uv[1], uv[2], uv[2], uv[1], uv[3]]
    } else {
        seq![uv[0], uv[2], uv[1], uv[1], uv[2], uv[3]]
    }
}

/// Corner entries matching [`tri_part`]: the face's corner, once per entry.
pub open spec fn corner_part(a: bool, b: bool, corner: i8) -> Seq<i8> {
    if a == b {
        seq![]
    } else {
        seq![corner, corner, corner, corner, corner, corner]
    }
}

/// `mask` with the bits of the four face points set when the states differ.
pub open spec fn mask_part(a: bool, b: bool, mask: u32, v: [i8; 4]) -> u32 {
    if a == b {
        mask
    } else {
        mask | (1u32 << (v[0] as u32)) | (1u32 << (v[1] as u32)) | (1u32 << (v[2] as u32)) | (1u32
            << (v[3] as u32))
    }
}

/// Whether `v` numbers a face point.
pub open spec fn is_vert(v: i8) -> bool {
    0 <= v < 19
}

/// Records the face `verts` (with texture coordinates `uvs` and corner
/// `corner_idx`) of cube `cube_index` when the states `a` and `b` of the two
/// corners differ: sets the bits of its points in the edge table and appends
/// two triangles, facing away from the inside corner, to the other tables.
pub fn add_to_tables(
    a: bool,
    b: bool,
    cube_index: usize,
    verts: [i8; 4],
    uvs: [[i8; 2]; 4],
    corner_idx: i8,
    edge_table: &mut [u32; 256],
    triangle_table: &mut Vec<Vec<i8>>,
    uv_table: &mut Vec<Vec<[i8; 2]>>,
    corner_table: &mut Vec<Vec<i8>>,
)
    requires
        cube_index < 256,
        cube_index < old(triangle_table)@.len(),
        cube_index < old(uv_table)@.len(),
        cube_index < old(corner_table)@.len(),
        a != b ==> is_vert(verts[0]) && is_vert(verts[1]) && is_vert(verts[2]) && is_vert(verts[3]),
    ensures
        final(edge_table)@ == old(edge_table)@.update(
            cube_index as int,
            mask_part(a, b, old(edge_table)@[cube_index as int], verts),
        ),
        final(triangle_table)@.len() == old(triangle_table)@.len(),
        final(uv_table)@.len() == old(uv_table)@.len(),
        final(corner_table)@.len() == old(corner_table)@.len(),
        forall|k: int| #![trigger final(triangle_table)@[k]] 0 <= k < old(triangle_table)@.len() && k != cube_index
            ==> final(triangle_table)@[k] == old(triangle_table)@[k],
        forall|k: int| #![trigger final(uv_table)@[k]] 0 <= k < old(uv_table)@.len() && k != cube_index
            ==> final(uv_table)@[k] == old(uv_table)@[k],
        forall|k: int| #![trigger final(corner_table)@[k]] 0 <= k < old(corner_table)@.len() && k != cube_index
            ==> final(corner_table)@[k] == old(corner_table)@[k],
        final(triangle_table)@[cube_index as int]@ == old(triangle_table)@[cube_index as int]@
            + tri_part(a, b, verts),
        final(uv_table)@[cube_index as int]@ == old(uv_table)@[cube_index as int]@ + uv_part(
            a,
            b,
            uvs,
        ),
        final(corner_table)@[cube_index as int]@ == old(corner_table)@[cube_index as int]@
            + corner_part(a, b, corner_idx),
{
    if a != b {
        let m0 = edge_table[cube_index];
        let m1 = m0 | (1u32 << (verts[0] as u32));
        let m2 = m1 | (1u32 << (verts[1] as u32));
        let m3 = m2 | (1u32 << (verts[2] as u32));
        let m4 = m3 | (1u32 << (verts[3] as u32));
        edge_table[cube_index] = m4;
        let ghost t0 = triangle_table[cube_index as int]@;
        let ghost u0 = uv_table[cube_index as int]@;
        let ghost c0 = corner_table[cube_index as int]@;
        if a {
            // A face out
            triangle_table[cube_index].push(verts[0]);
            triangle_table[cube_index].push(verts[1]);
            triangle_table[cube_index].push(verts[2]);
            uv_table[cube_index].push(uvs[0]);
            uv_table[cube_index].push(uvs[1]);
            uv_table[cube_index].push(uvs[2]);
            triangle_table[cube_index].push(verts[2]);
            triangle_table[cube_index].push(verts[1]);
            triangle_table[cube_index].push(verts[3]);
            uv_table[cube_index].push(uvs[2]);
            uv_table[cube_index].push(uvs[1]);
            uv_table[cube_index].push(uvs[3]);
        } else {
            // B face outwards
            triangle_table[cube_index].push(verts[0]);
            triangle_table[cube_index].push(verts[2]);
            triangle_table[cube_index].push(verts[1]);
            uv_table[cube_index].push(uvs[0]);
            uv_table[cube_index].push(uvs[2]);
            uv_table[cube_index].push(uvs[1]);
            triangle_table[cube_index].push(verts[1]);
            triangle_table[cube_index].push(verts[2]);
            triangle_table[cube_index].push(verts[3]);
            uv_table[cube_index].push(uvs[1]);
            uv_table[cube_index].push(uvs[2]);
            uv_table[cube_index].push(uvs[3]);
        }
        let mut k: usize = 0;
        while k < 6
            invariant
                k <= 6,
                cube_index < corner_table@.len(),
                corner_table@.len() == old(corner_table)@.len(),
                forall|q: int| #![trigger corner_table@[q]] 0 <= q < old(corner_table)@.len() && q != cube_index
                    ==> corner_table@[q] == old(corner_table)@[q],
                corner_table@[cube_index as int]@ == c0 + Seq::new(k as nat, |q: int| corner_idx),
                c0 == old(corner_table)@[cube_index as int]@,
            decreases 6 - k,
        {
            corner_table[cube_index].push(corner_idx);
            k += 1;
        }
        assert(triangle_table@[cube_index as int]@ =~= t0 + tri_part(a, b, verts));
        assert(uv_table@[cube_index as int]@ =~= u0 + uv_part(a, b, uvs));
        assert(corner_table@[cube_index as int]@ =~= c0 + corner_part(a, b, corner_idx));
    } else {
        assert(old(triangle_table)@[cube_index as int]@ + tri_part(a, b, verts) =~= old(
            triangle_table,
        )@[cube_index as int]@);
        assert(old(uv_table)@[cube_index as int]@ + uv_part(a, b, uvs) =~= old(
            uv_table,
        )@[cube_index as int]@);
        assert(old(corner_table)@[cube_index as int]@ + corner_part(a, b, corner_idx) =~= old(
            corner_table,
        )@[cube_index as int]@);
        assert(edge_table@ =~= old(edge_table)@.update(
            cube_index as int,
            mask_part(a, b, old(edge_table)@[cube_index as int], verts),
        ));
    }
}


/// Sum of `2^k` over the first `n` corners `k` that are inside.
pub open spec fn cube_index_upto(all: [bool; 8], n: int) -> int
    decreases n,
{
    if n <= 0 {
        0
    } else {
        cube_index_upto(all, n - 1) + if all[n - 1] {
            (1usize << ((n - 1) as usize)) as int
        } else {
            0
        }
    }
}

/// Index of a cube configuration: bit `k` is set when corner `k` is inside.
pub open spec fn cube_index_spec(all: [bool; 8]) -> int {
    cube_index_upto(all, 8)
}

/// Whether corner `k` of configuration `c` is inside.
pub open spec fn cube_bit(c: usize, k: usize) -> bool {
    (c >> k) & 1 == 1
}

/// The corner states of configuration `c`.
pub open spec fn cube_bits(c: usize) -> [bool; 8] {
    [
        cube_bit(c, 0),
        cube_bit(c, 1),
        cube_bit(c, 2),
        cube_bit(c, 3),
        cube_bit(c, 4),
        cube_bit(c, 5),
        cube_bit(c, 6),
        cube_bit(c, 7),
    ]
}

/// Index of the cube configuration `all`: the sum of `2^k` over the corners `k`
/// that are inside.
pub fn calc_cube_index(all: &[bool; 8]) -> (r: usize)
    ensures
        r == cube_index_spec(*all),
        r < 256,
{
    let mut acc: usize = 0;
    let mut idx: usize = 0;
    assert((1usize << 0usize) == 1usize) by (bit_vector);
    while idx < 8
        invariant
            idx <= 8,
            acc == cube_index_upto(*all, idx as int),
            acc < (1usize << idx),
        decreases 8 - idx,
    {
        let bit = 1usize << idx;
        assert(acc | bit == acc + bit && acc + bit < (1usize << (idx + 1)) && acc < (1usize << (
        idx + 1))) by (bit_vector)
            requires
                acc < (1usize << idx),
                idx < 8,
                bit == 1usize << idx,
        ;
        if all[idx] {
            acc = acc | bit;
        }
        idx += 1;
    }
    assert((1usize << 8usize) == 256usize) by (bit_vector);
    acc
}

/// The corner states read back from a configuration's index give the index.
pub proof fn lemma_cube_index_of_bits(c: usize)
    requires
        c < 256,
    ensures
        cube_index_spec(cube_bits(c)) == c,
{
    reveal_with_fuel(cube_index_upto, 9);
    assert(c == (if (c >> 0usize) & 1 == 1 { 1usize << 0usize } else { 0 }) + (if (c >> 1usize)
        & 1 == 1 { 1usize << 1usize } else { 0 }) + (if (c >> 2usize) & 1 == 1 {
        1usize << 2usize
    } else { 0 }) + (if (c >> 3usize) & 1 == 1 { 1usize << 3usize } else { 0 }) + (if (c
        >> 4usize) & 1 == 1 { 1usize << 4usize } else { 0 }) + (if (c >> 5usize) & 1 == 1 {
        1usize << 5usize
    } else { 0 }) + (if (c >> 6usize) & 1 == 1 { 1usize << 6usize } else { 0 }) + (if (c
        >> 7usize) & 1 == 1 { 1usize << 7usize } else { 0 })) by (bit_vector)
        requires
            c < 256,
    ;
}


/// The faces recorded for configuration `c` after the first `p` corner pairs:
/// triangle entries, their texture coordinates, their corners, and the mask
/// of the face points in use.
pub open spec fn faces_prefix(c: usize, p: int) -> (Seq<i8>, Seq<[i8; 2]>, Seq<i8>, u32)
    decreases p,
{
    if p <= 0 {
        (seq![], seq![], seq![], 0u32)
    } else {
        let prev = faces_prefix(c, p - 1);
        let q = p - 1;
        let i = pair_first(q);
        let j = pair_second(q);
        match pair_face(q) {
            None => prev,
            Some(face) => {
                let a = cube_bit(c, i as usize);
                let b = cube_bit(c, j as usize);
                let corner = if face.2 == 0 {
                    i as i8
                } else {
                    j as i8
                };
                (
                    prev.0 + tri_part(a, b, face.0),
                    prev.1 + uv_part(a, b, face.1),
                    prev.2 + corner_part(a, b, corner),
                    mask_part(a, b, prev.3, face.0),
                )
            },
        }
    }
}

/// All faces of configuration `c`.
pub open spec fn cube_faces(c: usize) -> (Seq<i8>, Seq<[i8; 2]>, Seq<i8>, u32) {
    faces_prefix(c, 28)
}

/// `s` padded with `fill` up to length `n`.
pub open spec fn padded<T>(s: Seq<T>, n: int, fill: T) -> Seq<T> {
    s + Seq::new((n - s.len()) as nat, |i: int| fill)
}

/// Length of every table row: 12 edges, two triangles each.
pub const ROW_LEN: usize = 72;

/// The lookup tables of the voxel baker, one row per cube configuration.
pub struct VoxelTables {
    /// Bit `v` of row `c` is set when face point `v` is used by configuration `c`.
    pub edge_table: [u32; 256],
    /// Face point numbers, three per triangle, padded with -1.
    pub triangle_table: Vec<Vec<i8>>,
    /// Texture coordinates of the triangle entries in half texels, padded with `[-2, -2]`.
    pub uv_table: Vec<Vec<[i8; 2]>>,
    /// Corner of each triangle entry, padded with -1.
    pub corner_table: Vec<Vec<i8>>,
}

/// Whether `t` holds the faces of every configuration, padded to [`ROW_LEN`].
pub open spec fn tables_correct(t: VoxelTables) -> bool {
    &&& t.triangle_table@.len() == 256
    &&& t.uv_table@.len() == 256
    &&& t.corner_table@.len() == 256
    &&& forall|c: int|
        #![trigger t.triangle_table@[c]]
        0 <= c < 256 ==> {
            let f = cube_faces(c as usize);
            &&& t.edge_table@[c] == f.3
            &&& t.triangle_table@[c]@ == padded(f.0, ROW_LEN as int, -1i8)
            &&& t.uv_table@[c]@ == padded(f.1, ROW_LEN as int, [-2i8, -2i8])
            &&& t.corner_table@[c]@ == padded(f.2, ROW_LEN as int, -1i8)
        }
}

/// The three face rows grow together: six entries for each recorded face.
pub proof fn lemma_faces_lengths(c: usize, p: int)
    requires
        0 <= p <= 28,
    ensures
        faces_prefix(c, p).0.len() == faces_prefix(c, p).1.len(),
        faces_prefix(c, p).0.len() == faces_prefix(c, p).2.len(),
        faces_prefix(c, p).0.len() <= 6 * edge_count(p),
        faces_prefix(c, p).0.len() % 6 == 0,
    decreases p,
{
    if p > 0 {
        lemma_faces_lengths(c, p - 1);
    }
}

/// Every configuration has at most 72 triangle entries.
pub proof fn lemma_row_bound(c: usize)
    ensures
        cube_faces(c).0.len() <= ROW_LEN,
        cube_faces(c).1.len() == cube_faces(c).0.len(),
        cube_faces(c).2.len() == cube_faces(c).0.len(),
{
    lemma_faces_lengths(c, 28);
    lemma_twelve_edges();
}

/// Number of pairs among the first `p` that share an edge and whose corners
/// are on opposite sides in configuration `c`.
pub open spec fn crossing_count(c: usize, p: int) -> int
    decreases p,
{
    if p <= 0 {
        0
    } else {
        crossing_count(c, p - 1) + if pair_face(p - 1) is Some && cube_bit(
            c,
            pair_first(p - 1) as usize,
        ) != cube_bit(c, pair_second(p - 1) as usize) {
            1int
        } else {
            0
        }
    }
}

/// Each crossed edge contributes two triangles.
pub proof fn lemma_faces_count(c: usize, p: int)
    requires
        0 <= p <= 28,
    ensures
        faces_prefix(c, p).0.len() == 6 * crossing_count(c, p),
    decreases p,
{
    if p > 0 {
        lemma_faces_count(c, p - 1);
    }
}

/// In the checkerboard configuration (corners 0, 2, 5 and 7 inside) every
/// edge is crossed, so its row is full.
#[verifier::rlimit(60)]
pub proof fn lemma_checkerboard_full()
    ensures
        cube_faces(165).0.len() == ROW_LEN,
{
    assert(cube_bit(165, 0) && !cube_bit(165, 1) && cube_bit(165, 2) && !cube_bit(165, 3)
        && !cube_bit(165, 4) && cube_bit(165, 5) && !cube_bit(165, 6) && cube_bit(165, 7))
        by (bit_vector);
    reveal(pair_face);
    reveal_with_fuel(crossing_count, 29);
    lemma_faces_count(165, 28);
}


/// Appends `fill` to `row` until it holds `n` entries.
fn pad_row<T: Copy>(row: &mut Vec<T>, n: usize, fill: T)
    requires
        old(row)@.len() <= n,
    ensures
        final(row)@ == padded(old(row)@, n as int, fill),
{
    let ghost start = row@;
    while row.len() < n
        invariant
            start.len() <= row@.len() <= n,
            row@ == start + Seq::new((row@.len() - start.len()) as nat, |i: int| fill),
        decreases n - row@.len(),
    {
        row.push(fill);
    }
    assert(row@ =~= padded(start, n as int, fill));
}

/// Records in row `cube` of the tables every face of configuration `cube`, in
/// the order of the corner pairs `(i, j)`, `i < j`.
fn record_cube(
    cube: usize,
    edge_table: &mut [u32; 256],
    triangle_table: &mut Vec<Vec<i8>>,
    uv_table: &mut Vec<Vec<[i8; 2]>>,
    corner_table: &mut Vec<Vec<i8>>,
)
    requires
        cube < 256,
        old(triangle_table)@.len() == 256,
        old(uv_table)@.len() == 256,
        old(corner_table)@.len() == 256,
        old(edge_table)@[cube as int] == 0,
        old(triangle_table)@[cube as int]@.len() == 0,
        old(uv_table)@[cube as int]@.len() == 0,
        old(corner_table)@[cube as int]@.len() == 0,
    ensures
        final(triangle_table)@.len() == 256,
        final(uv_table)@.len() == 256,
        final(corner_table)@.len() == 256,
        final(edge_table)@ == old(edge_table)@.update(cube as int, cube_faces(cube).3),
        forall|k: int| #![trigger final(triangle_table)@[k]] 0 <= k < 256 && k != cube
            ==> final(triangle_table)@[k] == old(triangle_table)@[k],
        forall|k: int| #![trigger final(uv_table)@[k]] 0 <= k < 256 && k != cube
            ==> final(uv_table)@[k] == old(uv_table)@[k],
        forall|k: int| #![trigger final(corner_table)@[k]] 0 <= k < 256 && k != cube
            ==> final(corner_table)@[k] == old(corner_table)@[k],
        final(triangle_table)@[cube as int]@ == cube_faces(cube).0,
        final(uv_table)@[cube as int]@ == cube_faces(cube).1,
        final(corner_table)@[cube as int]@ == cube_faces(cube).2,
{
    let values: [bool; 8] = [
        (cube >> 0usize) & 1 == 1,
        (cube >> 1usize) & 1 == 1,
        (cube >> 2usize) & 1 == 1,
        (cube >> 3usize) & 1 == 1,
        (cube >> 4usize) & 1 == 1,
        (cube >> 5usize) & 1 == 1,
        (cube >> 6usize) & 1 == 1,
        (cube >> 7usize) & 1 == 1,
    ];
    assert(values == cube_bits(cube));
    let cube_index = calc_cube_index(&values);
    proof {
        lemma_cube_index_of_bits(cube);
    }
    assert(triangle_table@[cube as int]@ =~= faces_prefix(cube, 0).0);
    assert(uv_table@[cube as int]@ =~= faces_prefix(cube, 0).1);
    assert(corner_table@[cube as int]@ =~= faces_prefix(cube, 0).2);
    assert(edge_table@ =~= old(edge_table)@.update(cube as int, faces_prefix(cube, 0).3));
    let mut i: usize = 0;
    let ghost mut p: int = 0;
    while i < 8
        invariant
            i <= 8,
            p == pair_start(i as int),
            cube < 256,
            cube_index == cube,
            values == cube_bits(cube),
            triangle_table@.len() == 256,
            corner_table@.len() == 256,
            uv_table@.len() == 256,
            forall|k: int| #![trigger triangle_table@[k]] 0 <= k < 256 && k != cube
                ==> triangle_table@[k] == old(triangle_table)@[k],
            forall|k: int| #![trigger uv_table@[k]] 0 <= k < 256 && k != cube
                ==> uv_table@[k] == old(uv_table)@[k],
            forall|k: int| #![trigger corner_table@[k]] 0 <= k < 256 && k != cube
                ==> corner_table@[k] == old(corner_table)@[k],
            edge_table@ == old(edge_table)@.update(cube as int, faces_prefix(cube, p).3),
            triangle_table@[cube as int]@ == faces_prefix(cube, p).0,
            uv_table@[cube as int]@ == faces_prefix(cube, p).1,
            corner_table@[cube as int]@ == faces_prefix(cube, p).2,
        decreases 8 - i,
    {
        let mut j: usize = i + 1;
        while j < 8
            invariant
                i < 8,
                i + 1 <= j <= 8,
                p == pair_start(i as int) + (j - i - 1),
                cube < 256,
                cube_index == cube,
                values == cube_bits(cube),
                triangle_table@.len() == 256,
                corner_table@.len() == 256,
                uv_table@.len() == 256,
                forall|k: int| #![trigger triangle_table@[k]] 0 <= k < 256 && k != cube
                    ==> triangle_table@[k] == old(triangle_table)@[k],
                forall|k: int| #![trigger uv_table@[k]] 0 <= k < 256 && k != cube
                    ==> uv_table@[k] == old(uv_table)@[k],
                forall|k: int| #![trigger corner_table@[k]] 0 <= k < 256 && k != cube
                    ==> corner_table@[k] == old(corner_table)@[k],
                edge_table@ == old(edge_table)@.update(cube as int, faces_prefix(cube, p).3),
                triangle_table@[cube as int]@ == faces_prefix(cube, p).0,
                uv_table@[cube as int]@ == faces_prefix(cube, p).1,
                corner_table@[cube as int]@ == faces_prefix(cube, p).2,
            decreases 8 - j,
        {
            assert(pair_first(p) == i && pair_second(p) == j);
            let face = get_verts(corner_coord(i as u8), corner_coord(j as u8));
            assert(face == pair_face(p)) by {
                reveal(pair_face);
            }
            if let Some((verts, uvs, corner_idx)) = face {
                let corner: usize = if corner_idx == 0 {
                    i
                } else {
                    j
                };
                add_to_tables(
                    values[i],
                    values[j],
                    cube_index,
                    verts,
                    uvs,
                    corner as i8,
                    edge_table,
                    triangle_table,
                    uv_table,
                    corner_table,
                );
            }
            assert(edge_table@ =~= old(edge_table)@.update(cube as int, faces_prefix(cube, p + 1).3));
            proof {
                p = p + 1;
            }
            j += 1;
        }
        i += 1;
    }
}

/// Builds the lookup tables of the voxel baker. For every configuration of
/// inside and outside corners, and every pair of corners joined by a cube edge
/// with one corner inside and the other outside, the face between them is
/// recorded as two triangles facing away from the inside corner; rows are then
/// padded to the longest row, which holds 72 entries.
pub fn generate_tables() -> (r: VoxelTables)
    ensures
        tables_correct(r),
{
    let mut edge_table: [u32; 256] = [0; 256];
    let mut triangle_table: Vec<Vec<i8>> = Vec::new();
    let mut corner_table: Vec<Vec<i8>> = Vec::new();
    let mut uv_table: Vec<Vec<[i8; 2]>> = Vec::new();
    let mut n: usize = 0;
    while n < 256
        invariant
            n <= 256,
            triangle_table@.len() == n,
            corner_table@.len() == n,
            uv_table@.len() == n,
            forall|c: int| #![trigger triangle_table@[c]] 0 <= c < n ==> triangle_table@[c]@.len() == 0,
            forall|c: int| #![trigger corner_table@[c]] 0 <= c < n ==> corner_table@[c]@.len() == 0,
            forall|c: int| #![trigger uv_table@[c]] 0 <= c < n ==> uv_table@[c]@.len() == 0,
        decreases 256 - n,
    {
        triangle_table.push(Vec::new());
        corner_table.push(Vec::new());
        uv_table.push(Vec::new());
        n += 1;
    }
    assert(forall|c: int| 0 <= c < 256 ==> edge_table@[c] == 0);
    let mut cube: usize = 0;
    while cube < 256
        invariant
            cube <= 256,
            triangle_table@.len() == 256,
            corner_table@.len() == 256,
            uv_table@.len() == 256,
            forall|c: int| #![trigger edge_table@[c]] 0 <= c < cube ==> edge_table@[c] == cube_faces(c as usize).3,
            forall|c: int| #![trigger triangle_table@[c]] 0 <= c < cube ==> triangle_table@[c]@ == cube_faces(c as usize).0,
            forall|c: int| #![trigger uv_table@[c]] 0 <= c < cube ==> uv_table@[c]@ == cube_faces(c as usize).1,
            forall|c: int| #![trigger corner_table@[c]] 0 <= c < cube ==> corner_table@[c]@ == cube_faces(c as usize).2,
            forall|c: int| #![trigger edge_table@[c]] cube <= c < 256 ==> edge_table@[c] == 0,
            forall|c: int| #![trigger triangle_table@[c]] cube <= c < 256 ==> triangle_table@[c]@.len() == 0,
            forall|c: int| #![trigger uv_table@[c]] cube <= c < 256 ==> uv_table@[c]@.len() == 0,
            forall|c: int| #![trigger corner_table@[c]] cube <= c < 256 ==> corner_table@[c]@.len() == 0,
        decreases 256 - cube,
    {
        record_cube(cube, &mut edge_table, &mut triangle_table, &mut uv_table, &mut corner_table);
        cube += 1;
    }
    let mut longest: usize = 0;
    let mut c: usize = 0;
    while c < 256
        invariant
            c <= 256,
            triangle_table@.len() == 256,
            longest <= ROW_LEN,
            c > 165 ==> longest == ROW_LEN,
            forall|k: int| #![trigger triangle_table@[k]] 0 <= k < 256 ==> triangle_table@[k]@ == cube_faces(k as usize).0,
        decreases 256 - c,
    {
        proof {
            lemma_row_bound(c);
            if c == 165 {
                lemma_checkerboard_full();
            }
        }
        let len = triangle_table[c].len();
        if len > longest {
            longest = len;
        }
        c += 1;
    }
    assert(longest == ROW_LEN);
    let mut c: usize = 0;
    while c < 256
        invariant
            c <= 256,
            longest == ROW_LEN,
            triangle_table@.len() == 256,
            corner_table@.len() == 256,
            uv_table@.len() == 256,
            forall|k: int| #![trigger edge_table@[k]] 0 <= k < 256 ==> edge_table@[k] == cube_faces(k as usize).3,
            forall|k: int| #![trigger triangle_table@[k]] 0 <= k < c ==> triangle_table@[k]@ == padded(cube_faces(k as usize).0, ROW_LEN as int, -1i8),
            forall|k: int| #![trigger uv_table@[k]] 0 <= k < c ==> uv_table@[k]@ == padded(cube_faces(k as usize).1, ROW_LEN as int, [-2i8, -2i8]),
            forall|k: int| #![trigger corner_table@[k]] 0 <= k < c ==> corner_table@[k]@ == padded(cube_faces(k as usize).2, ROW_LEN as int, -1i8),
            forall|k: int| #![trigger triangle_table@[k]] c <= k < 256 ==> triangle_table@[k]@ == cube_faces(k as usize).0,
            forall|k: int| #![trigger uv_table@[k]] c <= k < 256 ==> uv_table@[k]@ == cube_faces(k as usize).1,
            forall|k: int| #![trigger corner_table@[k]] c <= k < 256 ==> corner_table@[k]@ == cube_faces(k as usize).2,
        decreases 256 - c,
    {
        proof {
            lemma_row_bound(c);
        }
        pad_row(&mut triangle_table[c], longest, -1i8);
        pad_row(&mut uv_table[c], longest, [-2i8, -2i8]);
        pad_row(&mut corner_table[c], longest, -1i8);
        c += 1;
    }
    VoxelTables { edge_table, triangle_table, uv_table, corner_table }
}


/// Whether corners `a` and `b` differ in exactly one coordinate, i.e. are the
/// two ends of a cube edge.
pub open spec fn joined_by_edge(a: [i8; 3], b: [i8; 3]) -> bool {
    (if a[0] != b[0] { 1int } else { 0 }) + (if a[1] != b[1] { 1int } else { 0 }) + (if a[2]
        != b[2] { 1int } else { 0 }) == 1
}

/// Two corners have a face between them exactly when they share a cube edge.
pub proof fn lemma_face_iff_edge(a: [i8; 3], b: [i8; 3])
    requires
        is_corner(a),
        is_corner(b),
    ensures
        face_spec(a, b) is Some <==> joined_by_edge(a, b),
{
}

/// Setting bits keeps the bits already set, and sets the new one.
proof fn lemma_or_bit(m: u32, v: u32, w: u32)
    requires
        v < 32,
        w < 32,
    ensures
        (m | (1u32 << v)) & (1u32 << v) != 0,
        m & (1u32 << w) != 0 ==> (m | (1u32 << v)) & (1u32 << w) != 0,
{
    assert((m | (1u32 << v)) & (1u32 << v) != 0) by (bit_vector)
        requires
            v < 32,
    ;
    assert(m & (1u32 << w) != 0 ==> (m | (1u32 << v)) & (1u32 << w) != 0) by (bit_vector)
        requires
            v < 32,
            w < 32,
    ;
}

/// Every triangle entry recorded so far names a face point whose bit is set
/// in the mask, and every entry numbers a face point.
proof fn lemma_prefix_bits(c: usize, p: int)
    requires
        0 <= p <= 28,
    ensures
        forall|k: int|
            0 <= k < faces_prefix(c, p).0.len() ==> is_vert(#[trigger] faces_prefix(c, p).0[k])
                && faces_prefix(c, p).3 & (1u32 << (faces_prefix(c, p).0[k] as u32)) != 0,
    decreases p,
{
    if p > 0 {
        lemma_prefix_bits(c, p - 1);
        let prev = faces_prefix(c, p - 1);
        let q = p - 1;
        let cur = faces_prefix(c, p);
        if let Some(face) = pair_face(q) {
            let a = cube_bit(c, pair_first(q) as usize);
            let b = cube_bit(c, pair_second(q) as usize);
            if a != b {
                assert(is_vert(face.0[0]) && is_vert(face.0[1]) && is_vert(face.0[2]) && is_vert(
                    face.0[3],
                )) by {
                    reveal(pair_face);
                    lemma_face_verts(corner_spec(pair_first(q)), corner_spec(pair_second(q)));
                }
                let v0 = face.0[0] as u32;
                let v1 = face.0[1] as u32;
                let v2 = face.0[2] as u32;
                let v3 = face.0[3] as u32;
                let m1 = prev.3 | (1u32 << v0);
                let m2 = m1 | (1u32 << v1);
                let m3 = m2 | (1u32 << v2);
                assert forall|k: int| 0 <= k < cur.0.len() implies is_vert(#[trigger] cur.0[k])
                    && cur.3 & (1u32 << (cur.0[k] as u32)) != 0 by {
                    let w = cur.0[k] as u32;
                    if k < prev.0.len() {
                        assert(cur.0[k] == prev.0[k]);
                    }
                    lemma_or_bit(prev.3, v0, w);
                    lemma_or_bit(m1, v1, w);
                    lemma_or_bit(m2, v2, w);
                    lemma_or_bit(m3, v3, w);
                }
            }
        }
    }
}

/// The points of the face between two corners joined by an edge are face points.
proof fn lemma_face_verts(a: [i8; 3], b: [i8; 3])
    requires
        is_corner(a),
        is_corner(b),
        face_spec(a, b) is Some,
    ensures
        is_vert(face_spec(a, b).unwrap().0[0]),
        is_vert(face_spec(a, b).unwrap().0[1]),
        is_vert(face_spec(a, b).unwrap().0[2]),
        is_vert(face_spec(a, b).unwrap().0[3]),
{
}

/// In the generated tables, every triangle entry that is not padding names a
/// face point whose bit is set in the edge table of its configuration, and the
/// rows hold exactly 72 entries, the padding being -1 after the real entries.
pub proof fn lemma_tables_consistent(t: VoxelTables, c: int, k: int)
    requires
        tables_correct(t),
        0 <= c < 256,
        0 <= k < ROW_LEN,
    ensures
        t.triangle_table@[c]@.len() == ROW_LEN,
        t.uv_table@[c]@.len() == ROW_LEN,
        t.corner_table@[c]@.len() == ROW_LEN,
        t.triangle_table@[c]@[k] != -1 ==> 0 <= t.triangle_table@[c]@[k] < 19
            && t.edge_table@[c] & (1u32 << (t.triangle_table@[c]@[k] as u32)) != 0,
        t.triangle_table@[c]@[k] == -1 <==> k >= cube_faces(c as usize).0.len(),
{
    lemma_row_bound(c as usize);
    lemma_prefix_bits(c as usize, 28);
    let f = cube_faces(c as usize);
    assert(t.triangle_table@[c]@ == padded(f.0, ROW_LEN as int, -1i8));
    if k < f.0.len() {
        assert(t.triangle_table@[c]@[k] == f.0[k]);
    }
}


/// A triangle of a cube configuration: its three face points, their texture
/// coordinates in half texels, and the corner it belongs to.
#[derive(Clone, Copy, Debug, PartialEq, Eq)]
pub struct CubeTriangle {
    pub points: [i8; 3],
    pub uvs: [[i8; 2]; 3],
    pub corner: i8,
}

/// Triangle `t` of configuration `c`: entries `3 * t` to `3 * t + 2` of its
/// faces.
pub open spec fn triangle_at(c: usize, t: int) -> CubeTriangle {
    let f = cube_faces(c);
    CubeTriangle {
        points: [f.0[3 * t], f.0[3 * t + 1], f.0[3 * t + 2]],
        uvs: [f.1[3 * t], f.1[3 * t + 1], f.1[3 * t + 2]],
        corner: f.2[3 * t],
    }
}

/// The triangles of configuration `cube_index`, read from the table rows
/// three entries at a time up to the first -1. Every face point read has its
/// bit set in the configuration's edge table. The row must end with padding:
/// a full row (the checkerboard configuration) has no -1 to stop at.
pub fn cube_triangles(tables: &VoxelTables, cube_index: usize) -> (r: Vec<CubeTriangle>)
    requires
        tables_correct(*tables),
        cube_index < 256,
        cube_faces(cube_index).0.len() < ROW_LEN,
    ensures
        3 * r@.len() == cube_faces(cube_index).0.len(),
        forall|t: int| 0 <= t < r@.len() ==> r@[t] == triangle_at(cube_index, t),
{
    let ghost f = cube_faces(cube_index);
    proof {
        lemma_row_bound(cube_index);
        lemma_faces_lengths(cube_index, 28);
        assert(tables.triangle_table@[cube_index as int]@ == padded(f.0, ROW_LEN as int, -1i8));
    }
    let row = &tables.triangle_table[cube_index];
    let uvs = &tables.uv_table[cube_index];
    let corners = &tables.corner_table[cube_index];
    let mut r: Vec<CubeTriangle> = Vec::new();
    let mut i: usize = 0;
    loop
        invariant
            tables_correct(*tables),
            cube_index < 256,
            f == cube_faces(cube_index),
            f.0.len() < ROW_LEN,
            f.0.len() % 6 == 0,
            f.1.len() == f.0.len() && f.2.len() == f.0.len(),
            row@ == padded(f.0, ROW_LEN as int, -1i8),
            uvs@ == padded(f.1, ROW_LEN as int, [-2i8, -2i8]),
            corners@ == padded(f.2, ROW_LEN as int, -1i8),
            i % 3 == 0,
            i <= f.0.len(),
            3 * r@.len() == i,
            forall|t: int| 0 <= t < r@.len() ==> r@[t] == triangle_at(cube_index, t),
        ensures
            i == f.0.len(),
            3 * r@.len() == i,
            forall|t: int| 0 <= t < r@.len() ==> r@[t] == triangle_at(cube_index, t),
        decreases ROW_LEN - i,
    {
        proof {
            lemma_tables_consistent(*tables, cube_index as int, i as int);
        }
        if row[i] == -1 {
            break;
        }
        proof {
            lemma_tables_consistent(*tables, cube_index as int, i + 1);
            lemma_tables_consistent(*tables, cube_index as int, i + 2);
            assert(tables.edge_table@[cube_index as int] & (1u32 << (row@[i as int] as u32)) != 0);
            assert(tables.edge_table@[cube_index as int] & (1u32 << (row@[i + 1] as u32)) != 0);
            assert(tables.edge_table@[cube_index as int] & (1u32 << (row@[i + 2] as u32)) != 0);
        }
        let triangle = CubeTriangle {
            points: [row[i], row[i + 1], row[i + 2]],
            uvs: [uvs[i], uvs[i + 1], uvs[i + 2]],
            corner: corners[i],
        };
        assert(triangle == triangle_at(cube_index, r@.len() as int));
        r.push(triangle);
        i += 3;
    }
    r
}

} // verus!
