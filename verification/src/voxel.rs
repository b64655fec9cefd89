//! Colored voxel chunks and the faces of their cube meshes.
//!
//! A [`Chunk`] of this module holds, for every voxel, a byte value (0 is
//! empty) and a color. [`Voxel`] decides which faces of which voxels a cube
//! mesh of the chunk shows: a face is shown when its neighbour across it is
//! empty or outside the chunk.
use vstd::prelude::*;

verus! {

/// The content of a chunk: its size and, for every voxel, its value and its
/// color, `x` varying fastest, then `y`, then `z`.
pub struct VoxelView {
    pub width: nat,
    pub height: nat,
    pub depth: nat,
    pub values: Seq<u8>,
    pub colors: Seq<[u8; 4]>,
}

impl VoxelView {
    /// Position of voxel `(x, y, z)`.
    pub open spec fn index(self, x: int, y: int, z: int) -> int {
        x + y * self.width + z * self.width * self.height
    }

    /// One value and one color per voxel.
    pub open spec fn wf(self) -> bool {
        &&& self.values.len() == self.width * self.height * self.depth
        &&& self.colors.len() == self.values.len()
    }

    /// Whether `(x, y, z)` lies inside the chunk.
    pub open spec fn inside(self, x: int, y: int, z: int) -> bool {
        0 <= x < self.width && 0 <= y < self.height && 0 <= z < self.depth
    }

    /// Whether voxel `(x, y, z)` is empty: outside the chunk, or of value 0.
    pub open spec fn empty_at(self, x: int, y: int, z: int) -> bool {
        !self.inside(x, y, z) || self.values[self.index(x, y, z)] == 0
    }
}

/// A chunk of voxels with a byte value and a color each.
#[derive(Debug)]
pub struct Chunk {
    colors: Vec<[u8; 4]>,
    width: usize,
    height: usize,
    depth: usize,
    values: Vec<u8>,
}

/// Position of voxel `(x, y, z)` in the chunk's values and colors.
pub fn get_index_for(chunk: &Chunk, x: usize, y: usize, z: usize) -> (r: usize)
    requires
        chunk.view().index(x as int, y as int, z as int) <= usize::MAX,
        z * chunk.view().width <= usize::MAX,
    ensures
        r == chunk.view().index(x as int, y as int, z as int),
{
    proof {
        lemma_index_parts(chunk.width as int, chunk.height as int, x as int, y as int, z as int);
    }
    x + y * chunk.width + z * chunk.width * chunk.height
}

/// The parts of a voxel position are no larger than the position.
proof fn lemma_index_parts(w: int, h: int, x: int, y: int, z: int)
    requires
        0 <= w,
        0 <= h,
        0 <= x,
        0 <= y,
        0 <= z,
    ensures
        0 <= y * w,
        0 <= z * w * h,
        h > 0 ==> z * w <= z * w * h,
        h == 0 ==> z * w * h == 0,
{
    assert(0 <= y * w && 0 <= z * w * h) by (nonlinear_arith)
        requires
            0 <= w,
            0 <= h,
            0 <= y,
            0 <= z,
    ;
    assert(h > 0 ==> z * w <= z * w * h) by (nonlinear_arith)
        requires
            0 <= w,
            0 <= z,
    ;
    assert(h == 0 ==> z * w * h == 0) by (nonlinear_arith);
}

/// A position below the number of voxels of a well-formed chunk is computed
/// without overflow.
pub proof fn lemma_stored_index_fits(v: VoxelView, x: int, y: int, z: int)
    requires
        v.wf(),
        0 <= x,
        0 <= y,
        0 <= z,
        v.index(x, y, z) < v.values.len(),
        v.values.len() <= usize::MAX,
    ensures
        z * v.width <= usize::MAX,
{
    let w = v.width as int;
    let h = v.height as int;
    lemma_index_parts(w, h, x, y, z);
    if h == 0 {
        assert(w * h * v.depth == 0) by (nonlinear_arith)
            requires
                h == 0,
        ;
    }
}

/// A voxel inside the chunk has a position below the number of voxels.
pub proof fn lemma_inside_index(v: VoxelView, x: int, y: int, z: int)
    requires
        v.inside(x, y, z),
    ensures
        0 <= v.index(x, y, z) < v.width * v.height * v.depth,
{
    let w = v.width as int;
    let h = v.height as int;
    let d = v.depth as int;
    assert(0 <= y * w && 0 <= z * w * h) by (nonlinear_arith)
        requires
            0 <= w,
            0 <= h,
            0 <= y,
            0 <= z,
    ;
    assert(x + y * w < w * h) by (nonlinear_arith)
        requires
            0 <= x < w,
            0 <= y < h,
    ;
    assert(z * w * h + w * h <= w * h * d) by (nonlinear_arith)
        requires
            0 <= z < d,
            0 <= w,
            0 <= h,
    ;
}

impl Chunk {
    /// The chunk's size, values and colors.
    pub closed spec fn view(&self) -> VoxelView {
        VoxelView {
            width: self.width as nat,
            height: self.height as nat,
            depth: self.depth as nat,
            values: self.values@,
            colors: self.colors@,
        }
    }

    /// A chunk of the given size whose voxels are all empty, with color
    /// `[0, 0, 0, 0]`.
    pub fn new(width: usize, height: usize, depth: usize) -> (r: Self)
        requires
            depth * height <= usize::MAX,
            depth * height * width <= usize::MAX,
        ensures
            r.view() == (VoxelView {
                width: width as nat,
                height: height as nat,
                depth: depth as nat,
                values: Seq::new((width * height * depth) as nat, |i: int| 0u8),
                colors: Seq::new((width * height * depth) as nat, |i: int| [0u8, 0u8, 0u8, 0u8]),
            }),
    {
        assert(depth * height * width == width * height * depth) by (nonlinear_arith);
        let n: usize = depth * height * width;
        let mut colors: Vec<[u8; 4]> = Vec::with_capacity(n);
        let mut values: Vec<u8> = Vec::with_capacity(n);
        let mut i: usize = 0;
        while i < n
            invariant
                i <= n,
                colors@ =~= Seq::new(i as nat, |k: int| [0u8, 0u8, 0u8, 0u8]),
                values@ =~= Seq::new(i as nat, |k: int| 0u8),
            decreases n - i,
        {
            colors.push([0, 0, 0, 0]);
            values.push(0);
            i += 1;
        }
        Chunk { colors, width, height, depth, values }
    }

    /// Depth in voxels.
    pub fn depth(&self) -> (r: usize)
        ensures
            r == self.view().depth,
    {
        self.depth
    }

    /// Height in voxels.
    pub fn height(&self) -> (r: usize)
        ensures
            r == self.view().height,
    {
        self.height
    }

    /// Width in voxels.
    pub fn width(&self) -> (r: usize)
        ensures
            r == self.view().width,
    {
        self.width
    }

    /// The value of voxel `(x, y, z)`, which must lie within the values.
    pub fn get(&self, x: usize, y: usize, z: usize) -> (r: u8)
        requires
            self.view().wf(),
            0 <= self.view().index(x as int, y as int, z as int) < self.view().values.len(),
        ensures
            r == self.view().values[self.view().index(x as int, y as int, z as int)],
    {
        proof {
            assert(self.view().values.len() == self.values.len());
            lemma_stored_index_fits(self.view(), x as int, y as int, z as int);
        }
        self.values[get_index_for(self, x, y, z)]
    }

    /// The color stored at the position of voxel `(x, y, z)`, `None` past the
    /// end of the colors.
    pub fn get_color(&self, x: usize, y: usize, z: usize) -> (r: Option<[u8; 4]>)
        requires
            self.view().index(x as int, y as int, z as int) <= usize::MAX,
            z * self.view().width <= usize::MAX,
        ensures
            r == (if self.view().index(x as int, y as int, z as int) < self.view().colors.len() {
                Some(self.view().colors[self.view().index(x as int, y as int, z as int)])
            } else {
                None
            }),
    {
        let index = get_index_for(self, x, y, z);
        if index < self.colors.len() {
            Some(self.colors[index])
        } else {
            None
        }
    }

    /// Whether voxel `(x, y, z)` is empty: outside the chunk, or of value 0.
    pub fn is_empty(&self, x: usize, y: usize, z: usize) -> (r: bool)
        requires
            self.view().wf(),
        ensures
            r == self.view().empty_at(x as int, y as int, z as int),
    {
        if x >= self.width || y >= self.height || z >= self.depth {
            true
        } else {
            proof {
                lemma_inside_index(self.view(), x as int, y as int, z as int);
                assert(self.view().values.len() == self.values.len());
            lemma_stored_index_fits(self.view(), x as int, y as int, z as int);
            }
            self.values[get_index_for(self, x, y, z)] == 0
        }
    }

    /// Sets the value of voxel `(x, y, z)`, which must lie within the values.
    pub fn set(&mut self, x: usize, y: usize, z: usize, value: u8)
        requires
            old(self).view().wf(),
            0 <= old(self).view().index(x as int, y as int, z as int) < old(self).view().values.len(),
        ensures
            final(self).view() == (VoxelView {
                values: old(self).view().values.update(
                    old(self).view().index(x as int, y as int, z as int),
                    value,
                ),
                ..old(self).view()
            }),
    {
        proof {
            assert(self.view().values.len() == self.values.len());
            lemma_stored_index_fits(self.view(), x as int, y as int, z as int);
        }
        let index = get_index_for(self, x, y, z);
        self.values.set(index, value);
    }

    /// Sets the color of voxel `(x, y, z)`, which must lie within the colors.
    pub fn set_color(&mut self, x: usize, y: usize, z: usize, color: [u8; 4])
        requires
            old(self).view().wf(),
            0 <= old(self).view().index(x as int, y as int, z as int) < old(self).view().colors.len(),
        ensures
            final(self).view() == (VoxelView {
                colors: old(self).view().colors.update(
                    old(self).view().index(x as int, y as int, z as int),
                    color,
                ),
                ..old(self).view()
            }),
    {
        proof {
            assert(self.view().values.len() == self.values.len());
            lemma_stored_index_fits(self.view(), x as int, y as int, z as int);
        }
        let index = get_index_for(self, x, y, z);
        self.colors.set(index, color);
    }
}


/// A side of a voxel's cube.
#[derive(Clone, Copy, Debug, PartialEq, Eq)]
pub enum FaceSide {
    /// Towards `+y`.
    Top,
    /// Towards `-y`.
    Bottom,
    /// Towards `-x`.
    Left,
    /// Towards `+x`.
    Right,
    /// Towards `+z`.
    Front,
    /// Towards `-z`.
    Back,
}

/// A face of a cube mesh: the voxel, the side and the color.
#[derive(Clone, Copy, Debug, PartialEq, Eq)]
pub struct VoxelFace {
    pub x: usize,
    pub y: usize,
    pub z: usize,
    pub side: FaceSide,
    pub color: [u8; 4],
}

/// The voxel across `side` of voxel `(x, y, z)`.
pub open spec fn neighbour(x: int, y: int, z: int, side: FaceSide) -> (int, int, int) {
    match side {
        FaceSide::Top => (x, y + 1, z),
        FaceSide::Bottom => (x, y - 1, z),
        FaceSide::Left => (x - 1, y, z),
        FaceSide::Right => (x + 1, y, z),
        FaceSide::Front => (x, y, z + 1),
        FaceSide::Back => (x, y, z - 1),
    }
}

/// The face on `side` of voxel `(x, y, z)` when the voxel across it is empty
/// (or outside the chunk), nothing otherwise.
pub open spec fn face_if_open(v: VoxelView, x: int, y: int, z: int, side: FaceSide) -> Seq<VoxelFace> {
    let (nx, ny, nz) = neighbour(x, y, z, side);
    if v.empty_at(nx, ny, nz) {
        seq![
            VoxelFace {
                x: x as usize,
                y: y as usize,
                z: z as usize,
                side,
                color: v.colors[v.index(x, y, z)],
            },
        ]
    } else {
        seq![]
    }
}

/// The visible faces of voxel `(x, y, z)`: none for an empty voxel; for a
/// solid one, in the order top, bottom, left, right, front, back, each face
/// whose neighbour is empty, in the voxel's color.
pub open spec fn faces_at(v: VoxelView, x: int, y: int, z: int) -> Seq<VoxelFace> {
    if v.empty_at(x, y, z) {
        seq![]
    } else {
        face_if_open(v, x, y, z, FaceSide::Top) + face_if_open(v, x, y, z, FaceSide::Bottom)
            + face_if_open(v, x, y, z, FaceSide::Left) + face_if_open(v, x, y, z, FaceSide::Right)
            + face_if_open(v, x, y, z, FaceSide::Front) + face_if_open(v, x, y, z, FaceSide::Back)
    }
}

/// The visible faces of voxels `(x, y, 0)` to `(x, y, z - 1)`.
pub open spec fn column_faces(v: VoxelView, x: int, y: int, z: int) -> Seq<VoxelFace>
    decreases z,
{
    if z <= 0 {
        seq![]
    } else {
        column_faces(v, x, y, z - 1) + faces_at(v, x, y, z - 1)
    }
}

/// The visible faces of the columns `(x, 0)` to `(x, y - 1)`.
pub open spec fn row_faces(v: VoxelView, x: int, y: int) -> Seq<VoxelFace>
    decreases y,
{
    if y <= 0 {
        seq![]
    } else {
        row_faces(v, x, y - 1) + column_faces(v, x, y - 1, v.depth as int)
    }
}

/// The visible faces of the slabs `0` to `x - 1`.
pub open spec fn slab_faces(v: VoxelView, x: int) -> Seq<VoxelFace>
    decreases x,
{
    if x <= 0 {
        seq![]
    } else {
        slab_faces(v, x - 1) + row_faces(v, x - 1, v.height as int)
    }
}

/// The visible faces of a chunk: voxels visited with `x` outermost and `z`
/// innermost.
pub open spec fn chunk_faces(v: VoxelView) -> Seq<VoxelFace> {
    slab_faces(v, v.width as int)
}

/// Whether the voxel across `side` of voxel `(x, y, z)` is empty: at the
/// chunk's border it is outside the chunk, hence empty.
fn side_open(chunk: &Chunk, x: usize, y: usize, z: usize, side: FaceSide) -> (r: bool)
    requires
        chunk.view().wf(),
        chunk.view().inside(x as int, y as int, z as int),
    ensures
        r == ({
            let (nx, ny, nz) = neighbour(x as int, y as int, z as int, side);
            chunk.view().empty_at(nx, ny, nz)
        }),
{
    let x_limit = chunk.width() - 1;
    let y_limit = chunk.height() - 1;
    let z_limit = chunk.depth() - 1;
    match side {
        FaceSide::Top => y == y_limit || chunk.is_empty(x, y + 1, z),
        FaceSide::Bottom => y == 0 || (y > 0 && chunk.is_empty(x, y - 1, z)),
        FaceSide::Left => x == 0 || (x > 0 && chunk.is_empty(x - 1, y, z)),
        FaceSide::Right => x == x_limit || chunk.is_empty(x + 1, y, z),
        FaceSide::Front => z == z_limit || chunk.is_empty(x, y, z + 1),
        FaceSide::Back => z == 0 || chunk.is_empty(x, y, z - 1),
    }
}

/// Appends the face on `side` of voxel `(x, y, z)`, of color `color`, when
/// the voxel across it is empty.
fn push_if_open(
    chunk: &Chunk,
    x: usize,
    y: usize,
    z: usize,
    side: FaceSide,
    color: [u8; 4],
    faces: &mut Vec<VoxelFace>,
)
    requires
        chunk.view().wf(),
        chunk.view().inside(x as int, y as int, z as int),
        color == chunk.view().colors[chunk.view().index(x as int, y as int, z as int)],
    ensures
        final(faces)@ == old(faces)@ + face_if_open(chunk.view(), x as int, y as int, z as int, side),
{
    let ghost before = faces@;
    if side_open(chunk, x, y, z, side) {
        faces.push(VoxelFace { x, y, z, side, color });
    }
    assert(faces@ =~= before + face_if_open(chunk.view(), x as int, y as int, z as int, side));
}

/// Appends the visible faces of voxel `(x, y, z)`.
fn push_voxel_faces(chunk: &Chunk, x: usize, y: usize, z: usize, faces: &mut Vec<VoxelFace>)
    requires
        chunk.view().wf(),
        chunk.view().inside(x as int, y as int, z as int),
    ensures
        final(faces)@ == old(faces)@ + faces_at(chunk.view(), x as int, y as int, z as int),
{
    let ghost v = chunk.view();
    let ghost before = faces@;
    let ghost (xi, yi, zi) = (x as int, y as int, z as int);
    if chunk.is_empty(x, y, z) {
        assert(faces@ =~= before + faces_at(v, xi, yi, zi));
        return;
    }
    proof {
        lemma_inside_index(v, xi, yi, zi);
        assert(v.values.len() == chunk.values.len());
        lemma_stored_index_fits(v, xi, yi, zi);
    }
    let color = match chunk.get_color(x, y, z) {
        Some(color) => color,
        None => [1, 1, 1, 1],
    };
    push_if_open(chunk, x, y, z, FaceSide::Top, color, faces);
    push_if_open(chunk, x, y, z, FaceSide::Bottom, color, faces);
    push_if_open(chunk, x, y, z, FaceSide::Left, color, faces);
    push_if_open(chunk, x, y, z, FaceSide::Right, color, faces);
    push_if_open(chunk, x, y, z, FaceSide::Front, color, faces);
    push_if_open(chunk, x, y, z, FaceSide::Back, color, faces);
    assert(faces@ =~= before + faces_at(v, xi, yi, zi));
}

/// Builds cube meshes of voxel chunks.
pub struct Voxel;

impl Voxel {
    /// The faces of the cube mesh of a chunk: every face of a solid voxel
    /// whose neighbour across it is empty or outside the chunk.
    pub fn faces(chunk: &Chunk) -> (r: Vec<VoxelFace>)
        requires
            chunk.view().wf(),
            chunk.view().width >= 1,
            chunk.view().height >= 1,
            chunk.view().depth >= 1,
        ensures
            r@ == chunk_faces(chunk.view()),
    {
        let ghost v = chunk.view();
        let width = chunk.width();
        let height = chunk.height();
        let depth = chunk.depth();
        let mut faces: Vec<VoxelFace> = Vec::new();
        let mut x: usize = 0;
        while x < width
            invariant
                v == chunk.view(),
                v.wf(),
                width == v.width && height == v.height && depth == v.depth,
                x <= width,
                faces@ == slab_faces(v, x as int),
            decreases width - x,
        {
            let mut y: usize = 0;
            while y < height
                invariant
                    v == chunk.view(),
                    v.wf(),
                    width == v.width && height == v.height && depth == v.depth,
                        x < width,
                    y <= height,
                    faces@ == slab_faces(v, x as int) + row_faces(v, x as int, y as int),
                decreases height - y,
            {
                let mut z: usize = 0;
                while z < depth
                    invariant
                        v == chunk.view(),
                        v.wf(),
                        width == v.width && height == v.height && depth == v.depth,
                                x < width,
                        y < height,
                        z <= depth,
                        faces@ == slab_faces(v, x as int) + row_faces(v, x as int, y as int)
                            + column_faces(v, x as int, y as int, z as int),
                    decreases depth - z,
                {
                    push_voxel_faces(chunk, x, y, z, &mut faces);
                    assert(faces@ =~= slab_faces(v, x as int) + row_faces(v, x as int, y as int)
                        + column_faces(v, x as int, y as int, z + 1));
                    z += 1;
                }
                assert(faces@ =~= slab_faces(v, x as int) + row_faces(v, x as int, y + 1));
                y += 1;
            }
            assert(faces@ =~= slab_faces(v, x + 1));
            x += 1;
        }
        faces
    }
}


/// Whether `f` is a face the cube mesh of the chunk must show: a side of a
/// solid voxel of the chunk whose neighbour across it is empty or outside the
/// chunk, in the voxel's color.
pub open spec fn shown_face(v: VoxelView, f: VoxelFace) -> bool {
    let (x, y, z) = (f.x as int, f.y as int, f.z as int);
    let (nx, ny, nz) = neighbour(x, y, z, f.side);
    &&& v.inside(x, y, z)
    &&& !v.empty_at(x, y, z)
    &&& v.empty_at(nx, ny, nz)
    &&& f.color == v.colors[v.index(x, y, z)]
}

/// Whether every face of `s` is one the mesh must show.
pub open spec fn all_shown(v: VoxelView, s: Seq<VoxelFace>) -> bool {
    forall|i: int| 0 <= i < s.len() ==> shown_face(v, #[trigger] s[i])
}

proof fn lemma_all_shown_concat(v: VoxelView, a: Seq<VoxelFace>, b: Seq<VoxelFace>)
    requires
        all_shown(v, a),
        all_shown(v, b),
    ensures
        all_shown(v, a + b),
{
    assert forall|i: int| 0 <= i < (a + b).len() implies shown_face(v, #[trigger] (a + b)[i]) by {
        if i < a.len() {
            assert((a + b)[i] == a[i]);
        } else {
            assert((a + b)[i] == b[i - a.len()]);
        }
    }
}

proof fn lemma_side_shown(v: VoxelView, x: int, y: int, z: int, side: FaceSide)
    requires
        v.inside(x, y, z),
        !v.empty_at(x, y, z),
        v.width <= usize::MAX && v.height <= usize::MAX && v.depth <= usize::MAX,
    ensures
        all_shown(v, face_if_open(v, x, y, z, side)),
{
    let f = face_if_open(v, x, y, z, side);
    if f.len() > 0 {
        assert(shown_face(v, f[0]));
    }
}

proof fn lemma_voxel_faces_shown(v: VoxelView, x: int, y: int, z: int)
    requires
        v.inside(x, y, z),
        v.width <= usize::MAX && v.height <= usize::MAX && v.depth <= usize::MAX,
    ensures
        all_shown(v, faces_at(v, x, y, z)),
{
    if !v.empty_at(x, y, z) {
        let t = face_if_open(v, x, y, z, FaceSide::Top);
        let b = face_if_open(v, x, y, z, FaceSide::Bottom);
        let l = face_if_open(v, x, y, z, FaceSide::Left);
        let r = face_if_open(v, x, y, z, FaceSide::Right);
        let f = face_if_open(v, x, y, z, FaceSide::Front);
        let k = face_if_open(v, x, y, z, FaceSide::Back);
        lemma_side_shown(v, x, y, z, FaceSide::Top);
        lemma_side_shown(v, x, y, z, FaceSide::Bottom);
        lemma_side_shown(v, x, y, z, FaceSide::Left);
        lemma_side_shown(v, x, y, z, FaceSide::Right);
        lemma_side_shown(v, x, y, z, FaceSide::Front);
        lemma_side_shown(v, x, y, z, FaceSide::Back);
        lemma_all_shown_concat(v, t, b);
        lemma_all_shown_concat(v, t + b, l);
        lemma_all_shown_concat(v, t + b + l, r);
        lemma_all_shown_concat(v, t + b + l + r, f);
        lemma_all_shown_concat(v, t + b + l + r + f, k);
    }
}

proof fn lemma_column_faces_shown(v: VoxelView, x: int, y: int, z: int)
    requires
        0 <= x < v.width,
        0 <= y < v.height,
        z <= v.depth,
        v.width <= usize::MAX && v.height <= usize::MAX && v.depth <= usize::MAX,
    ensures
        all_shown(v, column_faces(v, x, y, z)),
    decreases z,
{
    if z > 0 {
        lemma_column_faces_shown(v, x, y, z - 1);
        lemma_voxel_faces_shown(v, x, y, z - 1);
        lemma_all_shown_concat(v, column_faces(v, x, y, z - 1), faces_at(v, x, y, z - 1));
    }
}

proof fn lemma_row_faces_shown(v: VoxelView, x: int, y: int)
    requires
        0 <= x < v.width,
        y <= v.height,
        v.width <= usize::MAX && v.height <= usize::MAX && v.depth <= usize::MAX,
    ensures
        all_shown(v, row_faces(v, x, y)),
    decreases y,
{
    if y > 0 {
        lemma_row_faces_shown(v, x, y - 1);
        lemma_column_faces_shown(v, x, y - 1, v.depth as int);
        lemma_all_shown_concat(v, row_faces(v, x, y - 1), column_faces(v, x, y - 1, v.depth as int));
    }
}

proof fn lemma_slab_faces_shown(v: VoxelView, x: int)
    requires
        x <= v.width,
        v.width <= usize::MAX && v.height <= usize::MAX && v.depth <= usize::MAX,
    ensures
        all_shown(v, slab_faces(v, x)),
    decreases x,
{
    if x > 0 {
        lemma_slab_faces_shown(v, x - 1);
        lemma_row_faces_shown(v, x - 1, v.height as int);
        lemma_all_shown_concat(v, slab_faces(v, x - 1), row_faces(v, x - 1, v.height as int));
    }
}

/// The mesh shows no hidden face: every face of a chunk's mesh is a side of
/// a solid voxel whose neighbour across it is empty or outside the chunk,
/// drawn in the voxel's color.
pub proof fn lemma_faces_shown(v: VoxelView)
    requires
        v.width <= usize::MAX && v.height <= usize::MAX && v.depth <= usize::MAX,
    ensures
        all_shown(v, chunk_faces(v)),
{
    lemma_slab_faces_shown(v, v.width as int);
}


proof fn lemma_concat_contains(a: Seq<VoxelFace>, b: Seq<VoxelFace>, f: VoxelFace)
    requires
        a.contains(f) || b.contains(f),
    ensures
        (a + b).contains(f),
{
    if a.contains(f) {
        let i = choose|i: int| 0 <= i < a.len() && a[i] == f;
        assert((a + b)[i] == f);
    } else {
        let i = choose|i: int| 0 <= i < b.len() && b[i] == f;
        assert((a + b)[a.len() + i] == f);
    }
}

/// The face on `side` of a solid voxel whose neighbour across it is empty is
/// among the voxel's faces.
proof fn lemma_open_side_listed(v: VoxelView, x: int, y: int, z: int, side: FaceSide)
    requires
        !v.empty_at(x, y, z),
        ({
            let (nx, ny, nz) = neighbour(x, y, z, side);
            v.empty_at(nx, ny, nz)
        }),
    ensures
        faces_at(v, x, y, z).contains(
            VoxelFace {
                x: x as usize,
                y: y as usize,
                z: z as usize,
                side,
                color: v.colors[v.index(x, y, z)],
            },
        ),
{
    let f = VoxelFace {
        x: x as usize,
        y: y as usize,
        z: z as usize,
        side,
        color: v.colors[v.index(x, y, z)],
    };
    let t = face_if_open(v, x, y, z, FaceSide::Top);
    let b = face_if_open(v, x, y, z, FaceSide::Bottom);
    let l = face_if_open(v, x, y, z, FaceSide::Left);
    let r = face_if_open(v, x, y, z, FaceSide::Right);
    let fr = face_if_open(v, x, y, z, FaceSide::Front);
    let k = face_if_open(v, x, y, z, FaceSide::Back);
    assert(face_if_open(v, x, y, z, side)[0] == f);
    match side {
        FaceSide::Top => {
            lemma_concat_contains(t, b, f);
            lemma_concat_contains(t + b, l, f);
            lemma_concat_contains(t + b + l, r, f);
            lemma_concat_contains(t + b + l + r, fr, f);
            lemma_concat_contains(t + b + l + r + fr, k, f);
        },
        FaceSide::Bottom => {
            lemma_concat_contains(t, b, f);
            lemma_concat_contains(t + b, l, f);
            lemma_concat_contains(t + b + l, r, f);
            lemma_concat_contains(t + b + l + r, fr, f);
            lemma_concat_contains(t + b + l + r + fr, k, f);
        },
        FaceSide::Left => {
            lemma_concat_contains(t + b, l, f);
            lemma_concat_contains(t + b + l, r, f);
            lemma_concat_contains(t + b + l + r, fr, f);
            lemma_concat_contains(t + b + l + r + fr, k, f);
        },
        FaceSide::Right => {
            lemma_concat_contains(t + b + l, r, f);
            lemma_concat_contains(t + b + l + r, fr, f);
            lemma_concat_contains(t + b + l + r + fr, k, f);
        },
        FaceSide::Front => {
            lemma_concat_contains(t + b + l + r, fr, f);
            lemma_concat_contains(t + b + l + r + fr, k, f);
        },
        FaceSide::Back => {
            lemma_concat_contains(t + b + l + r + fr, k, f);
        },
    }
}

proof fn lemma_column_lists(v: VoxelView, x: int, y: int, z: int, upto: int, f: VoxelFace)
    requires
        0 <= z < upto,
        faces_at(v, x, y, z).contains(f),
    ensures
        column_faces(v, x, y, upto).contains(f),
    decreases upto,
{
    if z == upto - 1 {
        lemma_concat_contains(column_faces(v, x, y, upto - 1), faces_at(v, x, y, z), f);
    } else {
        lemma_column_lists(v, x, y, z, upto - 1, f);
        lemma_concat_contains(column_faces(v, x, y, upto - 1), faces_at(v, x, y, upto - 1), f);
    }
}

proof fn lemma_row_lists(v: VoxelView, x: int, y: int, upto: int, f: VoxelFace)
    requires
        0 <= y < upto,
        column_faces(v, x, y, v.depth as int).contains(f),
    ensures
        row_faces(v, x, upto).contains(f),
    decreases upto,
{
    if y == upto - 1 {
        lemma_concat_contains(row_faces(v, x, upto - 1), column_faces(v, x, y, v.depth as int), f);
    } else {
        lemma_row_lists(v, x, y, upto - 1, f);
        lemma_concat_contains(
            row_faces(v, x, upto - 1),
            column_faces(v, x, upto - 1, v.depth as int),
            f,
        );
    }
}

proof fn lemma_slab_lists(v: VoxelView, x: int, upto: int, f: VoxelFace)
    requires
        0 <= x < upto,
        row_faces(v, x, v.height as int).contains(f),
    ensures
        slab_faces(v, upto).contains(f),
    decreases upto,
{
    if x == upto - 1 {
        lemma_concat_contains(slab_faces(v, upto - 1), row_faces(v, x, v.height as int), f);
    } else {
        lemma_slab_lists(v, x, upto - 1, f);
        lemma_concat_contains(slab_faces(v, upto - 1), row_faces(v, upto - 1, v.height as int), f);
    }
}

/// The mesh shows every visible face: each side of a solid voxel whose
/// neighbour across it is empty or outside the chunk is a face of the mesh,
/// in the voxel's color.
pub proof fn lemma_open_faces_listed(v: VoxelView, x: int, y: int, z: int, side: FaceSide)
    requires
        v.inside(x, y, z),
        !v.empty_at(x, y, z),
        ({
            let (nx, ny, nz) = neighbour(x, y, z, side);
            v.empty_at(nx, ny, nz)
        }),
    ensures
        chunk_faces(v).contains(
            VoxelFace {
                x: x as usize,
                y: y as usize,
                z: z as usize,
                side,
                color: v.colors[v.index(x, y, z)],
            },
        ),
{
    let f = VoxelFace {
        x: x as usize,
        y: y as usize,
        z: z as usize,
        side,
        color: v.colors[v.index(x, y, z)],
    };
    lemma_open_side_listed(v, x, y, z, side);
    lemma_column_lists(v, x, y, z, v.depth as int, f);
    lemma_row_lists(v, x, y, v.height as int, f);
    lemma_slab_lists(v, x, v.width as int, f);
}

/// A face of voxel `(x, y, z)` on `side`, of color `color`, is in the mesh
/// exactly when the voxel is solid, the color is the voxel's and the voxel
/// across that side is empty or outside the chunk.
proof fn lemma_face_listed_iff(v: VoxelView, x: int, y: int, z: int, side: FaceSide, color: [u8; 4])
    requires
        v.width <= usize::MAX && v.height <= usize::MAX && v.depth <= usize::MAX,
        v.inside(x, y, z),
    ensures
        chunk_faces(v).contains(
            (VoxelFace { x: x as usize, y: y as usize, z: z as usize, side, color }),
        ) <==> ({
            let (nx, ny, nz) = neighbour(x, y, z, side);
            &&& !v.empty_at(x, y, z)
            &&& color == v.colors[v.index(x, y, z)]
            &&& v.empty_at(nx, ny, nz)
        }),
{
    let f = VoxelFace { x: x as usize, y: y as usize, z: z as usize, side, color };
    if chunk_faces(v).contains(f) {
        lemma_faces_shown(v);
        let i = choose|i: int| 0 <= i < chunk_faces(v).len() && chunk_faces(v)[i] == f;
        assert(shown_face(v, chunk_faces(v)[i]));
    }
    let (nx, ny, nz) = neighbour(x, y, z, side);
    if !v.empty_at(x, y, z) && color == v.colors[v.index(x, y, z)] && v.empty_at(nx, ny, nz) {
        lemma_open_faces_listed(v, x, y, z, side);
    }
}

/// Which faces of a voxel the mesh of a chunk shows, side by side: for a
/// voxel `(x, y, z)` of the chunk and a color, its face on a side is in the
/// mesh exactly when the voxel is solid (value not 0), the color is the
/// voxel's, and on that side the voxel lies on the chunk's border or its
/// neighbour is empty (value 0). Top looks towards `y + 1`, Bottom towards
/// `y - 1`, Left towards `x - 1`, Right towards `x + 1`, Front towards
/// `z + 1` and Back towards `z - 1`.
pub proof fn lemma_mesh_sides(v: VoxelView, x: int, y: int, z: int, color: [u8; 4])
    requires
        v.wf(),
        v.width <= usize::MAX && v.height <= usize::MAX && v.depth <= usize::MAX,
        0 <= x < v.width,
        0 <= y < v.height,
        0 <= z < v.depth,
    ensures
        chunk_faces(v).contains(
            (VoxelFace { x: x as usize, y: y as usize, z: z as usize, side: FaceSide::Top, color }),
        ) <==> (v.values[v.index(x, y, z)] != 0 && color == v.colors[v.index(x, y, z)] && (y + 1
            == v.height || v.values[v.index(x, y + 1, z)] == 0)),
        chunk_faces(v).contains(
            (VoxelFace { x: x as usize, y: y as usize, z: z as usize, side: FaceSide::Bottom, color }),
        ) <==> (v.values[v.index(x, y, z)] != 0 && color == v.colors[v.index(x, y, z)] && (y == 0
            || v.values[v.index(x, y - 1, z)] == 0)),
        chunk_faces(v).contains(
            (VoxelFace { x: x as usize, y: y as usize, z: z as usize, side: FaceSide::Left, color }),
        ) <==> (v.values[v.index(x, y, z)] != 0 && color == v.colors[v.index(x, y, z)] && (x == 0
            || v.values[v.index(x - 1, y, z)] == 0)),
        chunk_faces(v).contains(
            (VoxelFace { x: x as usize, y: y as usize, z: z as usize, side: FaceSide::Right, color }),
        ) <==> (v.values[v.index(x, y, z)] != 0 && color == v.colors[v.index(x, y, z)] && (x + 1
            == v.width || v.values[v.index(x + 1, y, z)] == 0)),
        chunk_faces(v).contains(
            (VoxelFace { x: x as usize, y: y as usize, z: z as usize, side: FaceSide::Front, color }),
        ) <==> (v.values[v.index(x, y, z)] != 0 && color == v.colors[v.index(x, y, z)] && (z + 1
            == v.depth || v.values[v.index(x, y, z + 1)] == 0)),
        chunk_faces(v).contains(
            (VoxelFace { x: x as usize, y: y as usize, z: z as usize, side: FaceSide::Back, color }),
        ) <==> (v.values[v.index(x, y, z)] != 0 && color == v.colors[v.index(x, y, z)] && (z == 0
            || v.values[v.index(x, y, z - 1)] == 0)),
{
    lemma_face_listed_iff(v, x, y, z, FaceSide::Top, color);
    lemma_face_listed_iff(v, x, y, z, FaceSide::Bottom, color);
    lemma_face_listed_iff(v, x, y, z, FaceSide::Left, color);
    lemma_face_listed_iff(v, x, y, z, FaceSide::Right, color);
    lemma_face_listed_iff(v, x, y, z, FaceSide::Front, color);
    lemma_face_listed_iff(v, x, y, z, FaceSide::Back, color);
}

/// Two sequences without repeats whose items differ have none together.
proof fn lemma_concat_no_duplicates(a: Seq<VoxelFace>, b: Seq<VoxelFace>)
    requires
        a.no_duplicates(),
        b.no_duplicates(),
        forall|i: int, j: int| 0 <= i < a.len() && 0 <= j < b.len() ==> a[i] != b[j],
    ensures
        (a + b).no_duplicates(),
{
    assert forall|i: int, j: int| 0 <= i < (a + b).len() && 0 <= j < (a + b).len() && i != j
        implies (a + b)[i] != (a + b)[j] by {
        if i < a.len() && j < a.len() {
            assert((a + b)[i] == a[i] && (a + b)[j] == a[j]);
        } else if i < a.len() {
            assert((a + b)[i] == a[i] && (a + b)[j] == b[j - a.len()]);
        } else if j < a.len() {
            assert((a + b)[j] == a[j] && (a + b)[i] == b[i - a.len()]);
        } else {
            assert((a + b)[i] == b[i - a.len()] && (a + b)[j] == b[j - a.len()]);
        }
    }
}

/// The faces of a voxel: at most one per side, each of that voxel.
proof fn lemma_voxel_faces_distinct(v: VoxelView, x: int, y: int, z: int)
    ensures
        faces_at(v, x, y, z).no_duplicates(),
        forall|i: int|
            0 <= i < faces_at(v, x, y, z).len() ==> {
                let f = #[trigger] faces_at(v, x, y, z)[i];
                f.x == x as usize && f.y == y as usize && f.z == z as usize
            },
{
    if !v.empty_at(x, y, z) {
        let t = face_if_open(v, x, y, z, FaceSide::Top);
        let b = face_if_open(v, x, y, z, FaceSide::Bottom);
        let l = face_if_open(v, x, y, z, FaceSide::Left);
        let r = face_if_open(v, x, y, z, FaceSide::Right);
        let fr = face_if_open(v, x, y, z, FaceSide::Front);
        let k = face_if_open(v, x, y, z, FaceSide::Back);
        lemma_concat_no_duplicates(t, b);
        let tb = t + b;
        assert forall|i: int| 0 <= i < tb.len() implies (#[trigger] tb[i]).side == FaceSide::Top
            || tb[i].side == FaceSide::Bottom by {
            if i < t.len() {
                assert(tb[i] == t[i]);
            } else {
                assert(tb[i] == b[i - t.len()]);
            }
        }
        lemma_concat_no_duplicates(tb, l);
        let tbl = tb + l;
        assert forall|i: int| 0 <= i < tbl.len() implies (#[trigger] tbl[i]).side == FaceSide::Top
            || tbl[i].side == FaceSide::Bottom || tbl[i].side == FaceSide::Left by {
            if i < tb.len() {
                assert(tbl[i] == tb[i]);
            } else {
                assert(tbl[i] == l[i - tb.len()]);
            }
        }
        lemma_concat_no_duplicates(tbl, r);
        let tblr = tbl + r;
        assert forall|i: int| 0 <= i < tblr.len() implies (#[trigger] tblr[i]).side
            != FaceSide::Front && tblr[i].side != FaceSide::Back by {
            if i < tbl.len() {
                assert(tblr[i] == tbl[i]);
            } else {
                assert(tblr[i] == r[i - tbl.len()]);
            }
        }
        lemma_concat_no_duplicates(tblr, fr);
        let tblrf = tblr + fr;
        assert forall|i: int| 0 <= i < tblrf.len() implies (#[trigger] tblrf[i]).side
            != FaceSide::Back by {
            if i < tblr.len() {
                assert(tblrf[i] == tblr[i]);
            } else {
                assert(tblrf[i] == fr[i - tblr.len()]);
            }
        }
        lemma_concat_no_duplicates(tblrf, k);
        let all = tblrf + k;
        assert forall|i: int| 0 <= i < all.len() implies {
            let f = #[trigger] all[i];
            f.x == x as usize && f.y == y as usize && f.z == z as usize
        } by {
            if i < tblrf.len() {
                assert(all[i] == tblrf[i]);
                if i < tblr.len() {
                    assert(tblrf[i] == tblr[i]);
                    if i < tbl.len() {
                        assert(tblr[i] == tbl[i]);
                        if i < tb.len() {
                            assert(tbl[i] == tb[i]);
                            if i < t.len() {
                                assert(tb[i] == t[i]);
                            } else {
                                assert(tb[i] == b[i - t.len()]);
                            }
                        } else {
                            assert(tbl[i] == l[i - tb.len()]);
                        }
                    } else {
                        assert(tblr[i] == r[i - tbl.len()]);
                    }
                } else {
                    assert(tblrf[i] == fr[i - tblr.len()]);
                }
            } else {
                assert(all[i] == k[i - tblrf.len()]);
            }
        }
    }
}

/// The faces of the first `z` voxels of column `(x, y)` repeat none, and
/// each is a face of a voxel of that column below `z`.
proof fn lemma_column_distinct(v: VoxelView, x: int, y: int, z: int)
    requires
        0 <= x <= usize::MAX,
        0 <= y <= usize::MAX,
        z <= usize::MAX + 1,
    ensures
        column_faces(v, x, y, z).no_duplicates(),
        forall|i: int|
            0 <= i < column_faces(v, x, y, z).len() ==> {
                let f = #[trigger] column_faces(v, x, y, z)[i];
                f.x == x && f.y == y && f.z < z
            },
    decreases z,
{
    if z > 0 {
        let a = column_faces(v, x, y, z - 1);
        let b = faces_at(v, x, y, z - 1);
        lemma_column_distinct(v, x, y, z - 1);
        lemma_voxel_faces_distinct(v, x, y, z - 1);
        assert forall|i: int, j: int| 0 <= i < a.len() && 0 <= j < b.len() implies a[i] != b[j] by {
            assert(a[i].z < z - 1);
            assert(b[j].z == (z - 1) as usize);
        }
        lemma_concat_no_duplicates(a, b);
        assert forall|i: int| 0 <= i < (a + b).len() implies {
            let f = #[trigger] (a + b)[i];
            f.x == x && f.y == y && f.z < z
        } by {
            if i < a.len() {
                assert((a + b)[i] == a[i]);
            } else {
                assert((a + b)[i] == b[i - a.len()]);
            }
        }
    }
}

/// The faces of the first `y` columns of slab `x` repeat none, and each is a
/// face of a voxel of that slab in a column below `y`.
proof fn lemma_row_distinct(v: VoxelView, x: int, y: int)
    requires
        0 <= x <= usize::MAX,
        y <= usize::MAX + 1,
        v.depth <= usize::MAX + 1,
    ensures
        row_faces(v, x, y).no_duplicates(),
        forall|i: int|
            0 <= i < row_faces(v, x, y).len() ==> {
                let f = #[trigger] row_faces(v, x, y)[i];
                f.x == x && f.y < y
            },
    decreases y,
{
    if y > 0 {
        let a = row_faces(v, x, y - 1);
        let b = column_faces(v, x, y - 1, v.depth as int);
        lemma_row_distinct(v, x, y - 1);
        lemma_column_distinct(v, x, y - 1, v.depth as int);
        assert forall|i: int, j: int| 0 <= i < a.len() && 0 <= j < b.len() implies a[i] != b[j] by {
            assert(a[i].y < y - 1);
            assert(b[j].y == y - 1);
        }
        lemma_concat_no_duplicates(a, b);
        assert forall|i: int| 0 <= i < (a + b).len() implies {
            let f = #[trigger] (a + b)[i];
            f.x == x && f.y < y
        } by {
            if i < a.len() {
                assert((a + b)[i] == a[i]);
            } else {
                assert((a + b)[i] == b[i - a.len()]);
            }
        }
    }
}

/// The faces of the first `x` slabs repeat none, and each is a face of a
/// voxel of a slab below `x`.
proof fn lemma_slab_distinct(v: VoxelView, x: int)
    requires
        x <= usize::MAX + 1,
        v.height <= usize::MAX + 1,
        v.depth <= usize::MAX + 1,
    ensures
        slab_faces(v, x).no_duplicates(),
        forall|i: int| 0 <= i < slab_faces(v, x).len() ==> (#[trigger] slab_faces(v, x)[i]).x < x,
    decreases x,
{
    if x > 0 {
        let a = slab_faces(v, x - 1);
        let b = row_faces(v, x - 1, v.height as int);
        lemma_slab_distinct(v, x - 1);
        lemma_row_distinct(v, x - 1, v.height as int);
        assert forall|i: int, j: int| 0 <= i < a.len() && 0 <= j < b.len() implies a[i] != b[j] by {
            assert(a[i].x < x - 1);
            assert(b[j].x == x - 1);
        }
        lemma_concat_no_duplicates(a, b);
        assert forall|i: int| 0 <= i < (a + b).len() implies (#[trigger] (a + b)[i]).x < x by {
            if i < a.len() {
                assert((a + b)[i] == a[i]);
            } else {
                assert((a + b)[i] == b[i - a.len()]);
            }
        }
    }
}

/// The mesh of a chunk draws each face once: no face appears twice.
pub proof fn lemma_mesh_faces_once(v: VoxelView)
    requires
        v.width <= usize::MAX && v.height <= usize::MAX && v.depth <= usize::MAX,
    ensures
        chunk_faces(v).no_duplicates(),
{
    lemma_slab_distinct(v, v.width as int);
}

} // verus!
