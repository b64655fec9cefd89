//! Dense voxel chunks and the traits shared by all chunk implementations.
//!
//! A sample of the voxel field is a 32-bit float; chunks store it as its bit
//! pattern ([`Sample`]) and never compute with it, so that every operation on
//! a chunk is exact.
use vstd::prelude::*;

verus! {

/// The bit pattern of a 32-bit float voxel sample.
pub type Sample = u32;

/// The sample of an empty voxel, -1.0.
pub const EMPTY_SAMPLE: Sample = 0xBF80_0000;

/// Define a component that contains a 3d size.
pub trait Sizable: Sized {
    /// Width in voxels.
    spec fn size_x(&self) -> u16;

    /// Height in voxels.
    spec fn size_y(&self) -> u16;

    /// Depth in voxels.
    spec fn size_z(&self) -> u16;

    /// Whether a component of the given size can be made (it may have to
    /// hold one cell per voxel).
    spec fn size_supported(width: u16, height: u16, depth: u16) -> bool;

    /// A component of the given size.
    fn with_size(width: u16, height: u16, depth: u16) -> (r: Self)
        requires
            Self::size_supported(width, height, depth),
        ensures
            r.size_x() == width,
            r.size_y() == height,
            r.size_z() == depth,
    ;

    /// Width in voxels.
    fn width(&self) -> (r: u16)
        ensures
            r == self.size_x(),
    ;

    /// Height in voxels.
    fn height(&self) -> (r: u16)
        ensures
            r == self.size_y(),
    ;

    /// Depth in voxels.
    fn depth(&self) -> (r: u16)
        ensures
            r == self.size_z(),
    ;
}

/// Read access to the samples of a chunk.
pub trait Chunkify<T> {
    /// Whether position `(x, y, z)` can be read.
    spec fn readable(&self, x: usize, y: usize, z: usize) -> bool;

    /// The sample at `(x, y, z)`.
    spec fn sample_at(&self, x: usize, y: usize, z: usize) -> T;

    /// Whether positions `(x, y, z)` and `(a, b, c)` name the same stored sample.
    spec fn same_cell(&self, x: usize, y: usize, z: usize, a: usize, b: usize, c: usize) -> bool;

    /// The sample at `(x, y, z)`.
    fn get(&self, x: usize, y: usize, z: usize) -> (r: T)
        requires
            self.readable(x, y, z),
        ensures
            r == self.sample_at(x, y, z),
    ;
}

/// Write access to the samples of a chunk.
pub trait ChunkifyMut<T>: Chunkify<T> {
    /// Sets the sample at `(x, y, z)`.
    fn set(&mut self, x: usize, y: usize, z: usize, value: T)
        requires
            old(self).readable(x, y, z),
        ensures
            final(self).sample_at(x, y, z) == value,
            forall|a: usize, b: usize, c: usize|
                #![trigger final(self).sample_at(a, b, c)]
                old(self).readable(a, b, c) && !old(self).same_cell(x, y, z, a, b, c)
                    ==> final(self).sample_at(a, b, c) == old(self).sample_at(a, b, c),
    ;
}

/// Read access to the atlas (texture tile) indices of a chunk.
pub trait Atlasify<T> {
    /// Whether the atlas index at `(x, y, z)` can be read.
    spec fn atlas_readable(&self, x: usize, y: usize, z: usize) -> bool;

    /// The atlas index at `(x, y, z)`.
    spec fn atlas_at(&self, x: usize, y: usize, z: usize) -> T;

    /// Whether positions `(x, y, z)` and `(a, b, c)` name the same stored atlas index.
    spec fn same_atlas_cell(&self, x: usize, y: usize, z: usize, a: usize, b: usize, c: usize) -> bool;

    /// The atlas index at `(x, y, z)`.
    fn get_atlas(&self, x: usize, y: usize, z: usize) -> (r: T)
        requires
            self.atlas_readable(x, y, z),
        ensures
            r == self.atlas_at(x, y, z),
    ;
}

/// Write access to the atlas indices of a chunk.
pub trait AtlasifyMut<T>: Atlasify<T> {
    /// Sets the atlas index at `(x, y, z)`.
    fn set_atlas(&mut self, x: usize, y: usize, z: usize, value: T)
        requires
            old(self).atlas_readable(x, y, z),
        ensures
            final(self).atlas_at(x, y, z) == value,
            forall|a: usize, b: usize, c: usize|
                #![trigger final(self).atlas_at(a, b, c)]
                old(self).atlas_readable(a, b, c) && !old(self).same_atlas_cell(x, y, z, a, b, c)
                    ==> final(self).atlas_at(a, b, c) == old(self).atlas_at(a, b, c),
    ;
}

/// The content of a chunk: its size and, for every voxel, its atlas index and
/// sample, `x` varying fastest, then `y`, then `z`.
pub struct ChunkView {
    pub width: u16,
    pub height: u16,
    pub depth: u16,
    pub cells: Seq<(u8, Sample)>,
}

impl ChunkView {
    /// Position of voxel `(x, y, z)` in `cells`.
    pub open spec fn index(self, x: int, y: int, z: int) -> int {
        x + y * self.width + z * self.width * self.height
    }

    /// One cell per voxel.
    pub open spec fn wf(self) -> bool {
        self.cells.len() == self.width * self.height * self.depth
    }

    /// Whether `(x, y, z)` names a cell (possibly of another row or layer,
    /// when a coordinate exceeds the chunk's size).
    pub open spec fn addressable(self, x: int, y: int, z: int) -> bool {
        0 <= self.index(x, y, z) < self.cells.len()
    }
}

/// Provides a `Chunkify` implementation with index and value support `(u8, Sample)`.
#[derive(Debug)]
pub struct Chunk {
    width: u16,
    height: u16,
    depth: u16,
    values: Vec<(u8, Sample)>,
}

impl Chunk {
    /// The chunk's size and cells.
    pub closed spec fn view(&self) -> ChunkView {
        ChunkView { width: self.width, height: self.height, depth: self.depth, cells: self.values@ }
    }

    /// A chunk of the given size whose voxels are all empty with atlas index 0.
    pub fn new(width: u16, height: u16, depth: u16) -> (r: Self)
        requires
            width * height * depth <= usize::MAX,
        ensures
            r.view() == (ChunkView {
                width,
                height,
                depth,
                cells: Seq::new((width * height * depth) as nat, |i: int| (0u8, EMPTY_SAMPLE)),
            }),
    {
        assert(depth as u64 * height as u64 <= u16::MAX * u16::MAX) by (nonlinear_arith)
            requires
                depth <= u16::MAX,
                height <= u16::MAX,
        ;
        assert(depth as u64 * height as u64 * width as u64 <= u16::MAX * u16::MAX * u16::MAX)
            by (nonlinear_arith)
            requires
                depth <= u16::MAX,
                height <= u16::MAX,
                width <= u16::MAX,
        ;
        assert(depth as u64 * height as u64 * width as u64 == width * height * depth)
            by (nonlinear_arith);
        let n: usize = (depth as u64 * height as u64 * width as u64) as usize;
        let mut values: Vec<(u8, Sample)> = Vec::with_capacity(n);
        let mut i: usize = 0;
        while i < n
            invariant
                i <= n,
                values@ =~= Seq::new(i as nat, |k: int| (0u8, EMPTY_SAMPLE)),
            decreases n - i,
        {
            values.push((0, EMPTY_SAMPLE));
            i += 1;
        }
        Chunk { width, height, depth, values }
    }

    /// A chunk of the given size holding `values`, `x` varying fastest.
    pub fn from_cells(width: u16, height: u16, depth: u16, values: Vec<(u8, Sample)>) -> (r: Self)
        requires
            values@.len() == width * height * depth,
        ensures
            r.view() == (ChunkView { width, height, depth, cells: values@ }),
    {
        Chunk { width, height, depth, values }
    }

    /// Position of voxel `(x, y, z)` in the cells: `x + y * width + z * width * height`.
    pub fn index(&self, x: usize, y: usize, z: usize) -> (r: usize)
        requires
            self.view().index(x as int, y as int, z as int) <= usize::MAX,
            z * self.view().width <= usize::MAX,
        ensures
            r == self.view().index(x as int, y as int, z as int),
    {
        proof {
            let w = self.width as int;
            let h = self.height as int;
            assert(0 <= y * w && 0 <= z * w * h && 0 <= z * w) by (nonlinear_arith)
                requires
                    0 <= w,
                    0 <= h,
                    0 <= y,
                    0 <= z,
            ;
        }
        x + y * self.width as usize + z * self.width as usize * self.height as usize
    }

    /// All cells: atlas index and sample of every voxel.
    pub fn values(&self) -> (r: &Vec<(u8, Sample)>)
        ensures
            r@ == self.view().cells,
    {
        &self.values
    }
}

impl Clone for Chunk {
    /// A copy of the chunk.
    fn clone(&self) -> (r: Self)
        ensures
            r.view() == self.view(),
    {
        let mut values: Vec<(u8, Sample)> = Vec::with_capacity(self.values.len());
        let mut i: usize = 0;
        while i < self.values.len()
            invariant
                i <= self.values@.len(),
                values@ == self.values@.subrange(0, i as int),
            decreases self.values@.len() - i,
        {
            values.push(self.values[i]);
            i += 1;
        }
        assert(values@ =~= self.values@);
        Chunk { width: self.width, height: self.height, depth: self.depth, values }
    }
}

/// A readable position has an index and a row offset that fit in `usize`.
proof fn lemma_addressable_fits(c: &Chunk, x: usize, y: usize, z: usize)
    requires
        c.view().addressable(x as int, y as int, z as int),
        c.view().wf(),
    ensures
        c.view().index(x as int, y as int, z as int) < usize::MAX,
        z * c.view().width <= usize::MAX,
{
    assert(c.values@.len() == c.values.len());
    let w = c.width as int;
    let h = c.height as int;
    assert(h >= 1 ==> z * w <= z * w * h) by (nonlinear_arith)
        requires
            0 <= w,
            0 <= z,
    ;
    assert(h == 0 ==> z * w * h == 0) by (nonlinear_arith);
    assert(h == 0 ==> w * h * c.depth == 0) by (nonlinear_arith);
    assert(0 <= y * w) by (nonlinear_arith)
        requires
            0 <= w,
            0 <= y,
    ;
    if h == 0 {
        assert(c.view().index(x as int, y as int, z as int) == x + y * w);
    }
}

/// Distinct voxels inside a chunk have distinct positions.
proof fn lemma_positions_distinct(v: ChunkView, x: int, y: int, z: int, a: int, b: int, c: int)
    requires
        0 <= x < v.width && 0 <= y < v.height && 0 <= z < v.depth,
        0 <= a < v.width && 0 <= b < v.height && 0 <= c < v.depth,
        v.index(x, y, z) == v.index(a, b, c),
    ensures
        x == a && y == b && z == c,
{
    let w = v.width as int;
    let h = v.height as int;
    assert(0 <= y * w && 0 <= b * w) by (nonlinear_arith)
        requires
            0 <= w,
            0 <= y,
            0 <= b,
    ;
    assert(x + y * w < w * h && a + b * w < w * h) by (nonlinear_arith)
        requires
            0 <= x < w,
            0 <= y < h,
            0 <= a < w,
            0 <= b < h,
    ;
    assert(z * w * h == z * (w * h) && c * w * h == c * (w * h)) by (nonlinear_arith);
    if z < c {
        assert(z * (w * h) + w * h <= c * (w * h)) by (nonlinear_arith)
            requires
                z < c,
                0 <= w * h,
        ;
    } else if c < z {
        assert(c * (w * h) + w * h <= z * (w * h)) by (nonlinear_arith)
            requires
                c < z,
                0 <= w * h,
        ;
    }
    if y < b {
        assert(y * w + w <= b * w) by (nonlinear_arith)
            requires
                y < b,
                0 <= w,
        ;
    } else if b < y {
        assert(b * w + w <= y * w) by (nonlinear_arith)
            requires
                b < y,
                0 <= w,
        ;
    }
}

/// A read gives back what the last write to the same voxel wrote: after
/// `set(x, y, z, value)`, the sample at `(x, y, z)` is `value`, every other
/// voxel of the chunk keeps its sample, and every voxel keeps its atlas index.
pub proof fn lemma_chunk_set_get(
    before: &Chunk,
    after: &Chunk,
    x: usize,
    y: usize,
    z: usize,
    value: Sample,
    a: usize,
    b: usize,
    c: usize,
)
    requires
        before.view().wf(),
        (x as int) < before.view().width && (y as int) < before.view().height && (z as int)
            < before.view().depth,
        (a as int) < before.view().width && (b as int) < before.view().height && (c as int)
            < before.view().depth,
        after.view() == (ChunkView {
            cells: before.view().cells.update(
                before.view().index(x as int, y as int, z as int),
                (before.view().cells[before.view().index(x as int, y as int, z as int)].0, value),
            ),
            ..before.view()
        }),
    ensures
        after.sample_at(a, b, c) == (if a == x && b == y && c == z {
            value
        } else {
            before.sample_at(a, b, c)
        }),
        after.atlas_at(a, b, c) == before.atlas_at(a, b, c),
{
    let v = before.view();
    lemma_inside_position(v, x as int, y as int, z as int);
    lemma_inside_position(v, a as int, b as int, c as int);
    if v.index(a as int, b as int, c as int) == v.index(x as int, y as int, z as int) {
        lemma_positions_distinct(v, x as int, y as int, z as int, a as int, b as int, c as int);
    }
}

/// A voxel inside a well-formed chunk has a position among its cells.
proof fn lemma_inside_position(v: ChunkView, x: int, y: int, z: int)
    requires
        v.wf(),
        0 <= x < v.width && 0 <= y < v.height && 0 <= z < v.depth,
    ensures
        0 <= v.index(x, y, z) < v.cells.len(),
{
    let w = v.width as int;
    let h = v.height as int;
    let d = v.depth as int;
    assert(0 <= y * w && 0 <= z * w * h) by (nonlinear_arith)
        requires
            0 <= w,
            0 <= h,
            0 <= y,
            0 <= z,
    ;
    assert(x + y * w < w * h) by (nonlinear_arith)
        requires
            0 <= x < w,
            0 <= y < h,
    ;
    assert(z * w * h + w * h <= w * h * d) by (nonlinear_arith)
        requires
            0 <= z < d,
            0 <= w,
            0 <= h,
    ;
}

impl Sizable for Chunk {
    open spec fn size_x(&self) -> u16 {
        self.view().width
    }

    open spec fn size_y(&self) -> u16 {
        self.view().height
    }

    open spec fn size_z(&self) -> u16 {
        self.view().depth
    }

    /// One cell per voxel: their number fits in a `usize`.
    open spec fn size_supported(width: u16, height: u16, depth: u16) -> bool {
        width * height * depth <= usize::MAX
    }

    fn with_size(width: u16, height: u16, depth: u16) -> (r: Self)
        ensures
            r.view().cells == Seq::new((width * height * depth) as nat, |i: int| (0u8, EMPTY_SAMPLE)),
    {
        Self::new(width, height, depth)
    }

    fn depth(&self) -> (r: u16) {
        self.depth
    }

    fn height(&self) -> (r: u16) {
        self.height
    }

    fn width(&self) -> (r: u16) {
        self.width
    }
}

impl Chunkify<Sample> for Chunk {
    open spec fn readable(&self, x: usize, y: usize, z: usize) -> bool {
        self.view().wf() && self.view().addressable(x as int, y as int, z as int)
    }

    open spec fn sample_at(&self, x: usize, y: usize, z: usize) -> Sample {
        self.view().cells[self.view().index(x as int, y as int, z as int)].1
    }

    /// Positions with the same index in the cells.
    open spec fn same_cell(&self, x: usize, y: usize, z: usize, a: usize, b: usize, c: usize) -> bool {
        self.view().index(x as int, y as int, z as int) == self.view().index(a as int, b as int, c as int)
    }

    fn get(&self, x: usize, y: usize, z: usize) -> (r: Sample) {
        proof {
            lemma_addressable_fits(self, x, y, z);
        }
        self.values[self.index(x, y, z)].1
    }
}

impl ChunkifyMut<Sample> for Chunk {
    fn set(&mut self, x: usize, y: usize, z: usize, value: Sample)
        ensures
            final(self).view() == (ChunkView {
                cells: old(self).view().cells.update(
                    old(self).view().index(x as int, y as int, z as int),
                    (old(self).view().cells[old(self).view().index(x as int, y as int, z as int)].0, value),
                ),
                ..old(self).view()
            }),
    {
        proof {
            lemma_addressable_fits(self, x, y, z);
        }
        let index = self.index(x, y, z);
        self.values.set(index, (self.values[index].0, value));
    }
}

impl Atlasify<u8> for Chunk {
    open spec fn atlas_readable(&self, x: usize, y: usize, z: usize) -> bool {
        self.view().wf() && self.view().addressable(x as int, y as int, z as int)
    }

    open spec fn atlas_at(&self, x: usize, y: usize, z: usize) -> u8 {
        self.view().cells[self.view().index(x as int, y as int, z as int)].0
    }

    /// Positions with the same index in the cells.
    open spec fn same_atlas_cell(&self, x: usize, y: usize, z: usize, a: usize, b: usize, c: usize) -> bool {
        self.view().index(x as int, y as int, z as int) == self.view().index(a as int, b as int, c as int)
    }

    fn get_atlas(&self, x: usize, y: usize, z: usize) -> (r: u8) {
        proof {
            lemma_addressable_fits(self, x, y, z);
        }
        self.values[self.index(x, y, z)].0
    }
}

impl AtlasifyMut<u8> for Chunk {
    fn set_atlas(&mut self, x: usize, y: usize, z: usize, value: u8)
        ensures
            final(self).view() == (ChunkView {
                cells: old(self).view().cells.update(
                    old(self).view().index(x as int, y as int, z as int),
                    (value, old(self).view().cells[old(self).view().index(x as int, y as int, z as int)].1),
                ),
                ..old(self).view()
            }),
    {
        proof {
            lemma_addressable_fits(self, x, y, z);
        }
        let index = self.index(x, y, z);
        self.values.set(index, (value, self.values[index].1));
    }
}

} // verus!
