//! Splitting a voxel field into chunks.
use vstd::prelude::*;

use crate::chunk::{Atlasify, Chunk, ChunkView, Chunkify, Sample, Sizable};

verus! {

/// The result of a chunking operation: a chunk and the location of its first
/// voxel in the source field.
pub struct Chunked {
    /// Location of the chunk's first voxel, in voxels of the source field.
    pub location: [usize; 3],
    /// The chunk.
    pub chunk: Chunk,
}

/// Separates a voxel field into chunks of a given size. Neighbouring chunks
/// share their border layer of voxels, and the last chunk along an axis is
/// smaller when the size does not divide the field.
pub struct FlatChunker {
    data: Vec<Sample>,
    atlas_data: Vec<u8>,
    data_width: usize,
    data_height: usize,
    data_depth: usize,
    chunk_sizes: [u16; 3],
    results: Vec<Chunked>,
}

/// The source of a chunker: samples and atlas indices of a field of
/// `width * height * depth` voxels, `x` varying fastest.
pub struct FieldView {
    pub data: Seq<Sample>,
    pub atlas: Seq<u8>,
    pub width: nat,
    pub height: nat,
    pub depth: nat,
}

impl FieldView {
    /// Index of voxel `(i, j, k)` in the field's arrays.
    pub open spec fn index(self, i: int, j: int, k: int) -> int {
        i + j * self.width + k * self.width * self.height
    }

    /// Atlas index and sample of voxel `(i, j, k)`; the atlas index is 0 where
    /// the atlas array is too short.
    pub open spec fn cell(self, i: int, j: int, k: int) -> (u8, Sample) {
        let idx = self.index(i, j, k);
        (if idx < self.atlas.len() { self.atlas[idx] } else { 0 }, self.data[idx])
    }
}

/// Number of chunks along an axis of `dim` voxels with chunks of `size`
/// voxels: `dim / size`, rounded up.
pub open spec fn chunk_count(dim: int, size: int) -> int {
    dim / size + if dim % size == 0 {
        0int
    } else {
        1int
    }
}

/// Position of chunk `(a, b, c)` in the result list of a grid with `ny`
/// chunks along `y` and `nz` along `z`: `z` varies fastest, then `y`, then `x`.
pub open spec fn grid_index(ny: int, nz: int, a: int, b: int, c: int) -> int {
    c + b * nz + a * nz * ny
}

/// Chunk `n` along an axis starts inside the field exactly when `n` is below
/// the chunk count.
pub proof fn lemma_chunk_count(dim: int, size: int, n: int)
    requires
        0 <= dim,
        0 < size,
        0 <= n,
    ensures
        n < chunk_count(dim, size) <==> n * size < dim,
        0 <= chunk_count(dim, size) <= dim,
{
    let q = dim / size;
    let r = dim % size;
    vstd::arithmetic::div_mod::lemma_fundamental_div_mod(dim, size);
    assert(0 <= r < size);
    assert(0 <= q) by (nonlinear_arith)
        requires
            0 <= dim,
            0 < size,
            q == dim / size,
    ;
    if n < q {
        assert(n * size < dim) by (nonlinear_arith)
            requires
                0 <= n < q,
                0 < size,
                dim == size * q + r,
                0 <= r,
        ;
    } else if n == q {
        assert(n * size == dim - r) by (nonlinear_arith)
            requires
                n == q,
                dim == size * q + r,
        ;
    } else {
        assert(n * size >= dim) by (nonlinear_arith)
            requires
                n > q,
                0 < size,
                dim == size * q + r,
                r < size,
        ;
    }
    assert(q <= dim) by (nonlinear_arith)
        requires
            0 < size,
            dim == size * q + r,
            0 <= r,
            0 <= q,
    ;
    assert(r != 0 ==> q + 1 <= dim) by (nonlinear_arith)
        requires
            0 < size,
            dim == size * q + r,
            0 <= r,
            0 <= q,
    ;
}

/// Number of voxels of chunk `n` along an axis: one more than the chunk size,
/// so that neighbours overlap by one layer, cut at the end of the field.
pub open spec fn chunk_extent(n: int, size: int, dim: int) -> int {
    let lo = n * size;
    let hi = if lo + size + 1 < dim {
        lo + size + 1
    } else {
        dim
    };
    hi - lo
}

/// Whether `c` holds, for the block of the field starting at `(x0, y0, z0)`
/// with extents `(w, h, d)`, every voxel's atlas index and sample.
pub open spec fn holds_block(
    c: ChunkView,
    f: FieldView,
    x0: int,
    y0: int,
    z0: int,
    w: int,
    h: int,
    d: int,
) -> bool {
    &&& c.width == w && c.height == h && c.depth == d
    &&& c.wf()
    &&& forall|ci: int, cj: int, ck: int|
        0 <= ci < w && 0 <= cj < h && 0 <= ck < d ==> #[trigger] c.cells[c.index(ci, cj, ck)]
            == f.cell(x0 + ci, y0 + cj, z0 + ck)
}


/// Whether `v` holds the block of chunk `(a, b, c)` of the field `f` cut
/// with chunk sizes `size`: the block starts at
/// `(a * size[0], b * size[1], c * size[2])` and reaches one voxel past the
/// chunk size, cut at the end of the field.
pub open spec fn is_flat_block(f: FieldView, size: [u16; 3], a: int, b: int, c: int, v: ChunkView) -> bool {
    holds_block(
        v,
        f,
        a * size[0],
        b * size[1],
        c * size[2],
        chunk_extent(a, size[0] as int, f.width as int),
        chunk_extent(b, size[1] as int, f.height as int),
        chunk_extent(c, size[2] as int, f.depth as int),
    )
}

/// Whether `r` is chunk `(a, b, c)` of the field `f` cut with chunk sizes
/// `size`: it is located at the block's first voxel and holds the block.
pub open spec fn is_flat_chunk(f: FieldView, size: [u16; 3], a: int, b: int, c: int, r: Chunked) -> bool {
    &&& r.location[0] == a * size[0]
    &&& r.location[1] == b * size[1]
    &&& r.location[2] == c * size[2]
    &&& is_flat_block(f, size, a, b, c, r.chunk.view())
}

/// Whether `rs` is the list of chunks of the field `f` cut with chunk sizes
/// `size`: one chunk per grid position, `z` varying fastest, then `y`, then `x`.
pub open spec fn flat_chunks(f: FieldView, size: [u16; 3], rs: Seq<Chunked>) -> bool {
    let nx = chunk_count(f.width as int, size[0] as int);
    let ny = chunk_count(f.height as int, size[1] as int);
    let nz = chunk_count(f.depth as int, size[2] as int);
    &&& rs.len() == nx * ny * nz
    &&& forall|a: int, b: int, c: int|
        0 <= a < nx && 0 <= b < ny && 0 <= c < nz ==> #[trigger] is_flat_chunk(
            f,
            size,
            a,
            b,
            c,
            rs[grid_index(ny, nz, a, b, c)],
        )
}

/// Chunk sizes with which a field can be chunked without a division by zero,
/// an overflow or a chunk extent beyond `u16`: every size is positive; the
/// chunk starts and ends visited along `x` (and along `y` once `x` has a
/// voxel, along `z` once `x` and `y` have one) are computed within `usize`;
/// when the field has voxels, every extent fits in a `u16`; and the samples
/// cover the field.
pub open spec fn chunkable(f: FieldView, size: [u16; 3]) -> bool {
    let (w, h, d) = (f.width as int, f.height as int, f.depth as int);
    let (s0, s1, s2) = (size[0] as int, size[1] as int, size[2] as int);
    &&& s0 > 0 && s1 > 0 && s2 > 0
    &&& (w / s0) * s0 + s0 + 1 <= usize::MAX
    &&& h / s1 + 1 <= usize::MAX && d / s2 + 1 <= usize::MAX
    &&& w > 0 ==> (h / s1) * s1 + s1 + 1 <= usize::MAX
    &&& w > 0 && h > 0 ==> (d / s2) * s2 + s2 + 1 <= usize::MAX
    &&& w > 0 && h > 0 && d > 0 ==> {
        &&& s0 < 0xffff || w <= 0xffff
        &&& s1 < 0xffff || h <= 0xffff
        &&& s2 < 0xffff || d <= 0xffff
    }
    &&& w * h * d <= f.data.len()
}

/// A vector holding the items of a slice.
fn copy_of<T: Copy>(items: &[T]) -> (r: Vec<T>)
    ensures
        r@ == items@,
{
    let mut r: Vec<T> = Vec::with_capacity(items.len());
    let mut i: usize = 0;
    while i < items.len()
        invariant
            i <= items@.len(),
            r@ == items@.subrange(0, i as int),
        decreases items@.len() - i,
    {
        r.push(items[i]);
        i += 1;
    }
    r
}

/// Whether `data` and `atlas` hold, at the field position of voxel
/// `(x, y, z)` of the chunk (`x` varying fastest), its sample and atlas index.
pub open spec fn copied_voxel<D: Chunkify<Sample> + Atlasify<u8> + Sizable>(
    chunk: &D,
    data: Seq<Sample>,
    atlas: Seq<u8>,
    x: usize,
    y: usize,
    z: usize,
) -> bool {
    let i = grid_index(chunk.size_y() as int, chunk.size_x() as int, z as int, y as int, x as int);
    &&& data[i] == chunk.sample_at(x, y, z)
    &&& atlas[i] == chunk.atlas_at(x, y, z)
}

/// Whether the first `n` positions of `data` and `atlas` hold the voxels of
/// `chunk` at their field positions `x + width * (y + height * z)`.
pub open spec fn copied_upto<D: Chunkify<Sample> + Atlasify<u8> + Sizable>(
    chunk: &D,
    data: Seq<Sample>,
    atlas: Seq<u8>,
    n: nat,
) -> bool {
    forall|x: usize, y: usize, z: usize|
        x < chunk.size_x() && y < chunk.size_y() && z < chunk.size_z() && grid_index(
            chunk.size_y() as int,
            chunk.size_x() as int,
            z as int,
            y as int,
            x as int,
        ) < n ==> #[trigger] copied_voxel(chunk, data, atlas, x, y, z)
}

/// Number of chunks along an axis: `dim / size`, rounded up.
fn count_chunks(dim: usize, size: usize) -> (r: usize)
    requires
        size > 0,
    ensures
        r == chunk_count(dim as int, size as int),
{
    proof {
        lemma_chunk_count(dim as int, size as int, 0);
    }
    if dim % size == 0 {
        dim / size
    } else {
        dim / size + 1
    }
}

/// First voxel and extent of chunk `n` along an axis of `dim` voxels.
fn chunk_span(n: usize, size: u16, dim: usize) -> (r: (usize, u16))
    requires
        size > 0,
        n < chunk_count(dim as int, size as int),
        (dim as int / size as int) * size + size + 1 <= usize::MAX,
        size < 0xffff || dim <= 0xffff,
    ensures
        r.0 == n * size,
        r.1 == chunk_extent(n as int, size as int, dim as int),
        r.0 + r.1 <= dim,
        r.1 > 0,
{
    proof {
        lemma_chunk_count(dim as int, size as int, n as int);
        lemma_chunk_count(dim as int, size as int, dim as int / size as int + 1);
        assert(n * size <= (dim as int / size as int) * size) by (nonlinear_arith)
            requires
                n <= dim as int / size as int,
                0 < size,
        ;
    }
    let min = n * size as usize;
    let max = if min + size as usize + 1 < dim {
        min + size as usize + 1
    } else {
        dim
    };
    ((min, (max - min) as u16))
}

impl FlatChunker {
    /// The field being chunked.
    pub closed spec fn field(&self) -> FieldView {
        FieldView {
            data: self.data@,
            atlas: self.atlas_data@,
            width: self.data_width as nat,
            height: self.data_height as nat,
            depth: self.data_depth as nat,
        }
    }

    /// The chunk sizes along `x`, `y` and `z`.
    pub closed spec fn chunk_size(&self) -> [u16; 3] {
        self.chunk_sizes
    }

    /// The chunks of the last call to `generate_chunks`.
    pub closed spec fn chunks(&self) -> Seq<Chunked> {
        self.results@
    }

    /// Chunks the samples and atlas indices of a chunk: the field has the
    /// chunk's size and holds each voxel's sample and atlas index at the same
    /// `(x, y, z)`.
    pub fn from_chunk<D: Chunkify<Sample> + Atlasify<u8> + Sizable>(chunk: &D) -> (r: Self)
        requires
            forall|x: usize, y: usize, z: usize|
                x < chunk.size_x() && y < chunk.size_y() && z < chunk.size_z() ==> #[trigger] chunk.readable(x, y, z)
                    && chunk.atlas_readable(x, y, z),
        ensures
            r.field().width == chunk.size_x(),
            r.field().height == chunk.size_y(),
            r.field().depth == chunk.size_z(),
            r.field().data.len() == chunk.size_x() * chunk.size_y() * chunk.size_z(),
            r.field().atlas.len() == chunk.size_x() * chunk.size_y() * chunk.size_z(),
            copied_upto(chunk, r.field().data, r.field().atlas, r.field().data.len()),
            r.chunk_size() == [16u16, 16u16, 16u16],
            r.chunks() == Seq::<Chunked>::empty(),
    {
        let width = chunk.width();
        let height = chunk.height();
        let depth = chunk.depth();
        let ghost w = width as int;
        let ghost h = height as int;
        let ghost d = depth as int;
        let mut data: Vec<Sample> = Vec::new();
        let mut atlas_data: Vec<u8> = Vec::new();
        let mut z: u16 = 0;
        assert(0 * w * h == 0) by (nonlinear_arith);
        while z < depth
            invariant
                width == chunk.size_x() && height == chunk.size_y() && depth == chunk.size_z(),
                w == width && h == height && d == depth,
                forall|x: usize, y: usize, z: usize|
                    x < chunk.size_x() && y < chunk.size_y() && z < chunk.size_z() ==> #[trigger] chunk.readable(x, y, z)
                        && chunk.atlas_readable(x, y, z),
                z <= depth,
                data@.len() == z * w * h,
                atlas_data@.len() == data@.len(),
                copied_upto(chunk, data@, atlas_data@, data@.len()),
            decreases depth - z,
        {
            let mut y: u16 = 0;
            while y < height
                invariant
                    width == chunk.size_x() && height == chunk.size_y() && depth == chunk.size_z(),
                    w == width && h == height && d == depth,
                    forall|x: usize, y: usize, z: usize|
                        x < chunk.size_x() && y < chunk.size_y() && z < chunk.size_z() ==> #[trigger] chunk.readable(x, y, z)
                            && chunk.atlas_readable(x, y, z),
                    z < depth,
                    y <= height,
                    data@.len() == y * w + z * w * h,
                    atlas_data@.len() == data@.len(),
                    copied_upto(chunk, data@, atlas_data@, data@.len()),
                decreases height - y,
            {
                let mut x: u16 = 0;
                while x < width
                    invariant
                        width == chunk.size_x() && height == chunk.size_y() && depth == chunk.size_z(),
                        w == width && h == height && d == depth,
                        forall|x: usize, y: usize, z: usize|
                            x < chunk.size_x() && y < chunk.size_y() && z < chunk.size_z() ==> #[trigger] chunk.readable(x, y, z)
                                && chunk.atlas_readable(x, y, z),
                        z < depth,
                        y < height,
                        x <= width,
                        data@.len() == x + y * w + z * w * h,
                        atlas_data@.len() == data@.len(),
                        copied_upto(chunk, data@, atlas_data@, data@.len()),
                    decreases width - x,
                {
                    assert(chunk.readable(x as usize, y as usize, z as usize));
                    let ghost before_data = data@;
                    let ghost before_atlas = atlas_data@;
                    data.push(chunk.get(x as usize, y as usize, z as usize));
                    atlas_data.push(chunk.get_atlas(x as usize, y as usize, z as usize));
                    assert forall|a: usize, b: usize, c: usize|
                        a < w && b < h && c < d && grid_index(h, w, c as int, b as int, a as int) < data@.len()
                            implies #[trigger] copied_voxel(chunk, data@, atlas_data@, a, b, c) by {
                        if grid_index(h, w, c as int, b as int, a as int) == before_data.len() {
                            lemma_index_injective(w, h, a as int, b as int, c as int, x as int, y as int, z as int);
                        } else {
                            assert(copied_voxel(chunk, before_data, before_atlas, a, b, c));
                        }
                    }
                    x += 1;
                }
                assert(w + y * w + z * w * h == (y + 1) * w + z * w * h) by (nonlinear_arith);
                y += 1;
            }
            assert(h * w + z * w * h == (z + 1) * w * h) by (nonlinear_arith);
            z += 1;
        }
        assert(d * w * h == w * h * d) by (nonlinear_arith);
        Self::from_array_with_atlas(
            data.as_slice(),
            atlas_data.as_slice(),
            width as usize,
            height as usize,
            depth as usize,
        )
    }

    /// Chunks the samples of a field of `width * height * depth` voxels, `x`
    /// varying fastest, with no atlas indices and chunks of 16 voxels.
    pub fn from_array(data: &[Sample], width: usize, height: usize, depth: usize) -> (r: Self)
        ensures
            r.field() == (FieldView {
                data: data@,
                atlas: Seq::<u8>::empty(),
                width: width as nat,
                height: height as nat,
                depth: depth as nat,
            }),
            r.chunk_size() == [16u16, 16u16, 16u16],
            r.chunks() == Seq::<Chunked>::empty(),
    {
        let atlas: Vec<u8> = Vec::new();
        Self::from_array_with_atlas(data, atlas.as_slice(), width, height, depth)
    }

    /// Chunks the samples and atlas indices of a field of
    /// `width * height * depth` voxels, `x` varying fastest, with chunks of 16
    /// voxels. Voxels past the end of `atlas_data` get atlas index 0.
    pub fn from_array_with_atlas(
        data: &[Sample],
        atlas_data: &[u8],
        width: usize,
        height: usize,
        depth: usize,
    ) -> (r: Self)
        ensures
            r.field() == (FieldView {
                data: data@,
                atlas: atlas_data@,
                width: width as nat,
                height: height as nat,
                depth: depth as nat,
            }),
            r.chunk_size() == [16u16, 16u16, 16u16],
            r.chunks() == Seq::<Chunked>::empty(),
    {
        FlatChunker {
            data: copy_of(data),
            atlas_data: copy_of(atlas_data),
            data_width: width,
            data_height: height,
            data_depth: depth,
            chunk_sizes: [16, 16, 16],
            results: Vec::new(),
        }
    }

    /// Sets the maximum size of the generated chunks.
    pub fn set_chunk_size(&mut self, size: [u16; 3])
        ensures
            final(self).chunk_size() == size,
            final(self).field() == old(self).field(),
            final(self).chunks() == old(self).chunks(),
    {
        self.chunk_sizes = size;
    }

    /// Cuts the field into chunks; `chunks` then lists them.
    pub fn generate_chunks(&mut self)
        requires
            chunkable(old(self).field(), old(self).chunk_size()),
        ensures
            final(self).field() == old(self).field(),
            final(self).chunk_size() == old(self).chunk_size(),
            flat_chunks(final(self).field(), final(self).chunk_size(), final(self).chunks()),
    {
        let ghost f = self.field();
        let ghost size = self.chunk_sizes;
        let s0 = self.chunk_sizes[0];
        let s1 = self.chunk_sizes[1];
        let s2 = self.chunk_sizes[2];
        let nx = count_chunks(self.data_width, s0 as usize);
        let ny = count_chunks(self.data_height, s1 as usize);
        let nz = count_chunks(self.data_depth, s2 as usize);
        proof {
            lemma_chunk_count(f.width as int, s0 as int, 0);
            lemma_chunk_count(f.height as int, s1 as int, 0);
            lemma_chunk_count(f.depth as int, s2 as int, 0);
        }
        let mut results: Vec<Chunked> = Vec::new();
        let mut x: usize = 0;
        assert(0 * nz * ny == 0) by (nonlinear_arith);
        while x < nx
            invariant
                self.field() == f,
                self.chunk_sizes == size,
                size[0] == s0 && size[1] == s1 && size[2] == s2,
                chunkable(f, size),
                nx == chunk_count(f.width as int, s0 as int),
                ny == chunk_count(f.height as int, s1 as int),
                nz == chunk_count(f.depth as int, s2 as int),
                x <= nx,
                results@.len() == x * nz * ny,
                forall|a: int, b: int, c: int|
                    0 <= a < nx && 0 <= b < ny && 0 <= c < nz && grid_index(ny as int, nz as int, a, b, c)
                        < results@.len() ==> #[trigger] is_flat_chunk(
                        f,
                        size,
                        a,
                        b,
                        c,
                        results@[grid_index(ny as int, nz as int, a, b, c)],
                    ),
            decreases nx - x,
        {
            let mut y: usize = 0;
            while y < ny
                invariant
                    self.field() == f,
                    self.chunk_sizes == size,
                    size[0] == s0 && size[1] == s1 && size[2] == s2,
                    chunkable(f, size),
                    nx == chunk_count(f.width as int, s0 as int),
                    ny == chunk_count(f.height as int, s1 as int),
                    nz == chunk_count(f.depth as int, s2 as int),
                    x < nx,
                    y <= ny,
                    results@.len() == y * nz + x * nz * ny,
                    forall|a: int, b: int, c: int|
                        0 <= a < nx && 0 <= b < ny && 0 <= c < nz && grid_index(
                            ny as int,
                            nz as int,
                            a,
                            b,
                            c,
                        ) < results@.len() ==> #[trigger] is_flat_chunk(
                            f,
                            size,
                            a,
                            b,
                            c,
                            results@[grid_index(ny as int, nz as int, a, b, c)],
                        ),
                decreases ny - y,
            {
                let mut z: usize = 0;
                while z < nz
                    invariant
                        self.field() == f,
                        self.chunk_sizes == size,
                        size[0] == s0 && size[1] == s1 && size[2] == s2,
                        chunkable(f, size),
                        nx == chunk_count(f.width as int, s0 as int),
                        ny == chunk_count(f.height as int, s1 as int),
                        nz == chunk_count(f.depth as int, s2 as int),
                        x < nx,
                        y < ny,
                        z <= nz,
                        results@.len() == z + y * nz + x * nz * ny,
                        forall|a: int, b: int, c: int|
                            0 <= a < nx && 0 <= b < ny && 0 <= c < nz && grid_index(
                                ny as int,
                                nz as int,
                                a,
                                b,
                                c,
                            ) < results@.len() ==> #[trigger] is_flat_chunk(
                                f,
                                size,
                                a,
                                b,
                                c,
                                results@[grid_index(ny as int, nz as int, a, b, c)],
                            ),
                    decreases nz - z,
                {
                    proof {
                        lemma_chunk_count(f.width as int, s0 as int, 0);
                        lemma_chunk_count(f.height as int, s1 as int, 0);
                        lemma_chunk_count(f.depth as int, s2 as int, 0);
                    }
                    let (x_min, x_size) = chunk_span(x, s0, self.data_width);
                    let (y_min, y_size) = chunk_span(y, s1, self.data_height);
                    let (z_min, z_size) = chunk_span(z, s2, self.data_depth);
                    let chunk = extract_block(
                        &self.data,
                        &self.atlas_data,
                        self.data_width,
                        self.data_height,
                        self.data_depth,
                        x_min,
                        y_min,
                        z_min,
                        x_size,
                        y_size,
                        z_size,
                    );
                    let ghost before = results@;
                    results.push(Chunked { location: [x_min, y_min, z_min], chunk });
                    proof {
                        assert(is_flat_chunk(f, size, x as int, y as int, z as int, results@[before.len() as int]));
                        assert forall|a: int, b: int, c: int|
                            0 <= a < nx && 0 <= b < ny && 0 <= c < nz && grid_index(
                                ny as int,
                                nz as int,
                                a,
                                b,
                                c,
                            ) < results@.len() implies #[trigger] is_flat_chunk(
                                f,
                                size,
                                a,
                                b,
                                c,
                                results@[grid_index(ny as int, nz as int, a, b, c)],
                            ) by {
                            if grid_index(ny as int, nz as int, a, b, c) == before.len() {
                                lemma_index_injective(
                                    nz as int,
                                    ny as int,
                                    c,
                                    b,
                                    a,
                                    z as int,
                                    y as int,
                                    x as int,
                                );
                            }
                        }
                    }
                    z += 1;
                }
                assert(nz + y * nz + x * nz * ny == (y + 1) * nz + x * nz * ny) by (nonlinear_arith);
                y += 1;
            }
            assert(ny * nz + x * nz * ny == (x + 1) * nz * ny) by (nonlinear_arith);
            x += 1;
        }
        assert(nx * nz * ny == nx * ny * nz && nz * ny * nx == nx * nz * ny) by (nonlinear_arith);
        self.results = results;
        assert(forall|a: int, b: int, c: int|
            0 <= a < nx && 0 <= b < ny && 0 <= c < nz ==> #[trigger] is_flat_chunk(
                f,
                size,
                a,
                b,
                c,
                self.chunks()[grid_index(ny as int, nz as int, a, b, c)],
            )) by {
            assert forall|a: int, b: int, c: int|
                0 <= a < nx && 0 <= b < ny && 0 <= c < nz implies grid_index(ny as int, nz as int, a, b, c)
                < results@.len() by {
                lemma_index_bound(nz as int, ny as int, c, b, a);
                lemma_layers_monotone(nz as int, ny as int, a + 1, nx as int);
            }
        }
    }

    /// The chunks of the last call to `generate_chunks`, to be modified in
    /// place.
    pub fn get_chunks_mut(&mut self) -> (r: &mut Vec<Chunked>)
        ensures
            r@ == old(self).chunks(),
            final(self).chunks() == final(r)@,
            final(self).field() == old(self).field(),
            final(self).chunk_size() == old(self).chunk_size(),
    {
        &mut self.results
    }

    /// The chunks of the last call to `generate_chunks`.
    pub fn get_chunks(&self) -> (r: Vec<&Chunked>)
        ensures
            r@.len() == self.chunks().len(),
            forall|i: int| 0 <= i < r@.len() ==> *r@[i] == self.chunks()[i],
    {
        let mut r: Vec<&Chunked> = Vec::new();
        let mut i: usize = 0;
        while i < self.results.len()
            invariant
                i <= self.results@.len(),
                r@.len() == i,
                forall|k: int| 0 <= k < i ==> *r@[k] == self.results@[k],
            decreases self.results@.len() - i,
        {
            r.push(&self.results[i]);
            i += 1;
        }
        r
    }
}

/// Whether chunk `r` holds voxel `(i, j, k)` of the field `f`, at its place
/// relative to the chunk's location.
pub open spec fn holds_voxel(r: Chunked, f: FieldView, i: int, j: int, k: int) -> bool {
    let c = r.chunk.view();
    let ci = i - r.location[0];
    let cj = j - r.location[1];
    let ck = k - r.location[2];
    &&& 0 <= ci < c.width && 0 <= cj < c.height && 0 <= ck < c.depth
    &&& c.cells[c.index(ci, cj, ck)] == f.cell(i, j, k)
}

/// No voxel is lost by chunking: every voxel of the field lies in one of the
/// chunks, which holds its atlas index and sample.
pub proof fn lemma_flat_chunks_cover(
    f: FieldView,
    size: [u16; 3],
    rs: Seq<Chunked>,
    i: int,
    j: int,
    k: int,
)
    requires
        chunkable(f, size),
        flat_chunks(f, size, rs),
        0 <= i < f.width,
        0 <= j < f.height,
        0 <= k < f.depth,
    ensures
        exists|n: int| 0 <= n < rs.len() && #[trigger] holds_voxel(rs[n], f, i, j, k),
{
    let s0 = size[0] as int;
    let s1 = size[1] as int;
    let s2 = size[2] as int;
    let nx = chunk_count(f.width as int, s0);
    let ny = chunk_count(f.height as int, s1);
    let nz = chunk_count(f.depth as int, s2);
    let a = i / s0;
    let b = j / s1;
    let c = k / s2;
    lemma_chunk_of(i, s0);
    lemma_chunk_of(j, s1);
    lemma_chunk_of(k, s2);
    lemma_chunk_count(f.width as int, s0, a);
    lemma_chunk_count(f.height as int, s1, b);
    lemma_chunk_count(f.depth as int, s2, c);
    lemma_chunk_count(f.width as int, s0, 0);
    lemma_chunk_count(f.height as int, s1, 0);
    lemma_chunk_count(f.depth as int, s2, 0);
    let n = grid_index(ny, nz, a, b, c);
    lemma_index_bound(nz, ny, c, b, a);
    lemma_layers_monotone(nz, ny, a + 1, nx);
    assert(nz * ny * nx == nx * ny * nz) by (nonlinear_arith);
    assert(is_flat_chunk(f, size, a, b, c, rs[n]));
    assert(holds_voxel(rs[n], f, i, j, k));
}

/// Voxel `i` along an axis lies in chunk `i / size`, before the chunk's end.
proof fn lemma_chunk_of(i: int, size: int)
    requires
        0 <= i,
        0 < size,
    ensures
        0 <= i / size,
        (i / size) * size <= i < (i / size) * size + size,
{
    vstd::arithmetic::div_mod::lemma_fundamental_div_mod(i, size);
    assert(0 <= i / size) by (nonlinear_arith)
        requires
            0 <= i,
            0 < size,
    ;
    assert((i / size) * size == size * (i / size)) by (nonlinear_arith);
}

/// Row-major positions are distinct for distinct coordinates inside the box.
pub proof fn lemma_index_injective(
    w: int,
    h: int,
    a0: int,
    a1: int,
    a2: int,
    b0: int,
    b1: int,
    b2: int,
)
    requires
        0 <= a0 < w,
        0 <= b0 < w,
        0 <= a1 < h,
        0 <= b1 < h,
        0 <= a2,
        0 <= b2,
        a0 + a1 * w + a2 * w * h == b0 + b1 * w + b2 * w * h,
    ensures
        a0 == b0 && a1 == b1 && a2 == b2,
{
    let ra = a0 + a1 * w;
    let rb = b0 + b1 * w;
    assert(0 <= ra < w * h && 0 <= rb < w * h) by (nonlinear_arith)
        requires
            0 <= a0 < w,
            0 <= b0 < w,
            0 <= a1 < h,
            0 <= b1 < h,
            ra == a0 + a1 * w,
            rb == b0 + b1 * w,
    ;
    assert(a2 * w * h == a2 * (w * h) && b2 * w * h == b2 * (w * h)) by (nonlinear_arith);
    lemma_row_major_unique(ra, a2, rb, b2, w * h);
    lemma_row_major_unique(a0, a1, b0, b1, w);
}

/// `lo + hi * n` determines `lo` and `hi` when `lo` is below `n`.
pub proof fn lemma_row_major_unique(lo_a: int, hi_a: int, lo_b: int, hi_b: int, n: int)
    requires
        0 <= lo_a < n,
        0 <= lo_b < n,
        0 <= hi_a,
        0 <= hi_b,
        lo_a + hi_a * n == lo_b + hi_b * n,
    ensures
        lo_a == lo_b && hi_a == hi_b,
{
    if hi_a < hi_b {
        assert(hi_a * n + n <= hi_b * n) by (nonlinear_arith)
            requires
                hi_a < hi_b,
                0 < n,
        ;
    } else if hi_b < hi_a {
        assert(hi_b * n + n <= hi_a * n) by (nonlinear_arith)
            requires
                hi_b < hi_a,
                0 < n,
        ;
    }
}

/// A position inside a box of width `w` and height `h` lies below the next layer.
pub proof fn lemma_index_bound(w: int, h: int, a: int, b: int, c: int)
    requires
        0 <= a < w,
        0 <= b < h,
        0 <= c,
    ensures
        0 <= b * w,
        0 <= c * w * h,
        a + b * w + c * w * h < (c + 1) * w * h,
        (c + 1) * w * h == c * w * h + w * h,
{
    assert(0 <= b * w && 0 <= c * w * h) by (nonlinear_arith)
        requires
            0 <= w,
            0 <= h,
            0 <= b,
            0 <= c,
    ;
    assert(a + b * w < w * h) by (nonlinear_arith)
        requires
            0 <= a < w,
            0 <= b < h,
    ;
    assert((c + 1) * w * h == c * w * h + w * h) by (nonlinear_arith);
}

/// A layer count bounded by `n` keeps the box below `w * h * n`.
pub proof fn lemma_layers_monotone(w: int, h: int, c: int, n: int)
    requires
        0 <= w,
        0 <= h,
        0 <= c <= n,
    ensures
        w * h * c <= w * h * n,
        c * w * h == w * h * c,
{
    assert(w * h * c <= w * h * n) by (nonlinear_arith)
        requires
            0 <= w,
            0 <= h,
            c <= n,
    ;
    assert(c * w * h == w * h * c) by (nonlinear_arith);
}

/// Reads the block of the field starting at `(x0, y0, z0)` with extents
/// `(w, h, d)` into a chunk.
#[verifier::loop_isolation(false)]
fn extract_block(
    data: &Vec<Sample>,
    atlas_data: &Vec<u8>,
    data_width: usize,
    data_height: usize,
    data_depth: usize,
    x0: usize,
    y0: usize,
    z0: usize,
    w: u16,
    h: u16,
    d: u16,
) -> (r: Chunk)
    requires
        x0 + w <= data_width,
        y0 + h <= data_height,
        z0 + d <= data_depth,
        data_width * data_height * data_depth <= data@.len(),
    ensures
        holds_block(
            r.view(),
            FieldView {
                data: data@,
                atlas: atlas_data@,
                width: data_width as nat,
                height: data_height as nat,
                depth: data_depth as nat,
            },
            x0 as int,
            y0 as int,
            z0 as int,
            w as int,
            h as int,
            d as int,
        ),
{
    let ghost f = FieldView {
        data: data@,
        atlas: atlas_data@,
        width: data_width as nat,
        height: data_height as nat,
        depth: data_depth as nat,
    };
    proof {
        lemma_layers_monotone(
            data_width as int,
            data_height as int,
            (z0 + d) as int,
            data_depth as int,
        );
    }
    let ghost cv = ChunkView { width: w, height: h, depth: d, cells: Seq::empty() };
    let mut values: Vec<(u8, Sample)> = Vec::new();
    assert(0 * w * h == 0) by (nonlinear_arith);
    let mut k: usize = 0;
    while k < d as usize
        invariant
            k <= d,
            values@.len() == k * w * h,
            forall|ci: int, cj: int, ck: int|
                0 <= ci < w && 0 <= cj < h && 0 <= ck < d && cv.index(ci, cj, ck) < values@.len()
                    ==> #[trigger] values@[cv.index(ci, cj, ck)] == f.cell(x0 + ci, y0 + cj, z0 + ck),
        decreases d - k,
    {
        let mut j: usize = 0;
        while j < h as usize
            invariant
                k < d,
                j <= h,
                values@.len() == j * w + k * w * h,
                forall|ci: int, cj: int, ck: int|
                    0 <= ci < w && 0 <= cj < h && 0 <= ck < d && cv.index(ci, cj, ck)
                        < values@.len() ==> #[trigger] values@[cv.index(ci, cj, ck)] == f.cell(
                        x0 + ci,
                        y0 + cj,
                        z0 + ck,
                    ),
            decreases h - j,
        {
            let mut i: usize = 0;
            while i < w as usize
                invariant
                    k < d,
                    j < h,
                    i <= w,
                    values@.len() == i + j * w + k * w * h,
                    forall|ci: int, cj: int, ck: int|
                        0 <= ci < w && 0 <= cj < h && 0 <= ck < d && cv.index(ci, cj, ck)
                            < values@.len() ==> #[trigger] values@[cv.index(ci, cj, ck)] == f.cell(
                            x0 + ci,
                            y0 + cj,
                            z0 + ck,
                        ),
                decreases w - i,
            {
                proof {
                    lemma_index_bound(
                        data_width as int,
                        data_height as int,
                        (x0 + i) as int,
                        (y0 + j) as int,
                        (z0 + k) as int,
                    );
                    lemma_layers_monotone(
                        data_width as int,
                        data_height as int,
                        (z0 + k + 1) as int,
                        (z0 + d) as int,
                    );
                }
                assert((y0 + j) * data_width <= (x0 + i) + (y0 + j) * data_width + (z0 + k)
                    * data_width * data_height);
                assert(((z0 + k) as int + 1) * data_width * data_height == ((z0 + k + 1) as int)
                    * data_width * data_height);
                assert(data_width * data_height * ((z0 + k + 1) as int) <= data_width * data_height
                    * ((z0 + d) as int));
                assert(data@.len() == data.len());
                assert((z0 + k) * data_width <= (z0 + k) * data_width * data_height)
                    by (nonlinear_arith)
                    requires
                        data_height >= 1,
                ;
                assert((z0 + k) * data_width * data_height <= usize::MAX);
                assert((z0 + k) * data_width <= usize::MAX);
                assert(z0 + k <= (z0 + k) * data_width) by (nonlinear_arith)
                    requires
                        data_width >= 1,
                ;
                assert((x0 + i) + (y0 + j) * data_width + (z0 + k) * data_width * data_height
                    < data@.len());
                let idx = (x0 + i) + (y0 + j) * data_width + (z0 + k) * data_width * data_height;
                let atlas = if idx < atlas_data.len() {
                    atlas_data[idx]
                } else {
                    0
                };
                let cell = (atlas, data[idx]);
                assert(cell == f.cell(x0 + i, y0 + j, z0 + k));
                let ghost before = values@;
                values.push(cell);
                assert forall|ci: int, cj: int, ck: int|
                    0 <= ci < w && 0 <= cj < h && 0 <= ck < d && cv.index(ci, cj, ck)
                        < values@.len() implies #[trigger] values@[cv.index(ci, cj, ck)] == f.cell(
                        x0 + ci,
                        y0 + cj,
                        z0 + ck,
                    ) by {
                    if cv.index(ci, cj, ck) == before.len() {
                        lemma_index_injective(
                            w as int,
                            h as int,
                            ci,
                            cj,
                            ck,
                            i as int,
                            j as int,
                            k as int,
                        );
                    }
                }
                i += 1;
            }
            assert(w + j * w + k * w * h == (j + 1) * w + k * w * h) by (nonlinear_arith);
            j += 1;
        }
        assert(h * w + k * w * h == (k + 1) * w * h) by (nonlinear_arith);
        k += 1;
    }
    assert(d * w * h == w * h * d) by (nonlinear_arith);
    let r = Chunk::from_cells(w, h, d, values);
    assert forall|ci: int, cj: int, ck: int|
        0 <= ci < w && 0 <= cj < h && 0 <= ck < d implies #[trigger] r.view().cells[r.view().index(
        ci,
        cj,
        ck,
    )] == f.cell(x0 + ci, y0 + cj, z0 + ck) by {
        lemma_index_bound(w as int, h as int, ci, cj, ck);
        lemma_layers_monotone(w as int, h as int, ck + 1, d as int);
        assert(r.view().index(ci, cj, ck) == cv.index(ci, cj, ck));
    }
    r
}

} // verus!
