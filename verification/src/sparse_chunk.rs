//! A chunk that stores only the voxels that were written.
use vstd::prelude::*;

use std::collections::HashMap;

use crate::chunk::{Atlasify, AtlasifyMut, Chunkify, ChunkifyMut, Sample, Sizable, EMPTY_SAMPLE};

verus! {

/// A voxel position.
pub type Position = (usize, usize, usize);

/// Provides a `Chunkify` implementation that stores, for the positions that
/// were written, an atlas index and a sample: a map from `x` to a map from
/// `y` to a map from `z` to the cell.
#[derive(Debug)]
pub struct SparseChunk {
    width: u16,
    height: u16,
    depth: u16,
    data: HashMap<usize, HashMap<usize, HashMap<usize, (u8, Sample)>>>,
}

/// Whether the nested maps hold a cell at `p`.
pub open spec fn nested_has(
    data: Map<usize, HashMap<usize, HashMap<usize, (u8, Sample)>>>,
    p: Position,
) -> bool {
    &&& data.contains_key(p.0)
    &&& data[p.0]@.contains_key(p.1)
    &&& data[p.0]@[p.1]@.contains_key(p.2)
}

/// The cells held by the nested maps, by position.
pub open spec fn nested_cells(data: Map<usize, HashMap<usize, HashMap<usize, (u8, Sample)>>>) -> Map<
    Position,
    (u8, Sample),
> {
    Map::new(|p: Position| nested_has(data, p), |p: Position| data[p.0]@[p.1]@[p.2])
}

impl SparseChunk {
    /// The stored cells: atlas index and sample of each written position.
    pub closed spec fn cells(&self) -> Map<Position, (u8, Sample)> {
        nested_cells(self.data@)
    }

    /// The cell stored at `p`, or `default` when none is.
    fn lookup(&self, p: Position, default: (u8, Sample)) -> (r: (u8, Sample))
        ensures
            r == (if self.cells().contains_key(p) {
                self.cells()[p]
            } else {
                default
            }),
    {
        broadcast use vstd::std_specs::hash::group_hash_axioms;

        match self.data.get(&p.0) {
            Some(ys) => match ys.get(&p.1) {
                Some(zs) => match zs.get(&p.2) {
                    Some(cell) => *cell,
                    None => default,
                },
                None => default,
            },
            None => default,
        }
    }

    /// Stores `cell` at `p`, replacing the cell stored there.
    fn store(&mut self, p: Position, cell: (u8, Sample))
        ensures
            final(self).cells() == old(self).cells().insert(p, cell),
            final(self).width == old(self).width,
            final(self).height == old(self).height,
            final(self).depth == old(self).depth,
    {
        broadcast use vstd::std_specs::hash::group_hash_axioms;

        let ghost before = self.data@;
        let mut ys = match self.data.remove(&p.0) {
            Some(m) => m,
            None => HashMap::new(),
        };
        let ghost ys0 = ys@;
        assert(before.contains_key(p.0) ==> ys0 == before[p.0]@);
        assert(!before.contains_key(p.0) ==> ys0 == Map::<usize, HashMap<usize, (u8, Sample)>>::empty());
        let mut zs = match ys.remove(&p.1) {
            Some(m) => m,
            None => HashMap::new(),
        };
        let ghost zs0 = zs@;
        assert(ys0.contains_key(p.1) ==> zs0 == ys0[p.1]@);
        assert(!ys0.contains_key(p.1) ==> zs0 == Map::<usize, (u8, Sample)>::empty());
        zs.insert(p.2, cell);
        ys.insert(p.1, zs);
        self.data.insert(p.0, ys);
        assert(self.cells() =~= nested_cells(before).insert(p, cell));
    }
}

/// A read gives back what the last write to the same position wrote: after
/// `set(x, y, z, value)`, the sample at `(x, y, z)` is `value`, every other
/// position keeps its sample, and every position keeps its atlas index.
pub proof fn lemma_sparse_set_get(
    before: &SparseChunk,
    after: &SparseChunk,
    x: usize,
    y: usize,
    z: usize,
    value: Sample,
    a: usize,
    b: usize,
    c: usize,
)
    requires
        after.cells() == before.cells().insert((x, y, z), (before.atlas_at(x, y, z), value)),
    ensures
        after.sample_at(a, b, c) == (if a == x && b == y && c == z {
            value
        } else {
            before.sample_at(a, b, c)
        }),
        after.atlas_at(a, b, c) == before.atlas_at(a, b, c),
{
}

impl Sizable for SparseChunk {
    closed spec fn size_x(&self) -> u16 {
        self.width
    }

    closed spec fn size_y(&self) -> u16 {
        self.height
    }

    closed spec fn size_z(&self) -> u16 {
        self.depth
    }

    /// Any size: only written voxels are stored.
    open spec fn size_supported(width: u16, height: u16, depth: u16) -> bool {
        true
    }

    fn with_size(width: u16, height: u16, depth: u16) -> (r: Self)
        ensures
            r.cells() == Map::<Position, (u8, Sample)>::empty(),
    {
        let r = SparseChunk { width, height, depth, data: HashMap::new() };
        assert(r.cells() =~= Map::<Position, (u8, Sample)>::empty());
        r
    }

    fn depth(&self) -> (r: u16) {
        self.depth
    }

    fn height(&self) -> (r: u16) {
        self.height
    }

    fn width(&self) -> (r: u16) {
        self.width
    }
}

impl Chunkify<Sample> for SparseChunk {
    /// Every position can be read.
    open spec fn readable(&self, x: usize, y: usize, z: usize) -> bool {
        true
    }

    /// The stored sample, -1.0 where nothing is stored.
    open spec fn sample_at(&self, x: usize, y: usize, z: usize) -> Sample {
        if self.cells().contains_key((x, y, z)) {
            self.cells()[(x, y, z)].1
        } else {
            EMPTY_SAMPLE
        }
    }

    /// Only equal positions share a cell.
    open spec fn same_cell(&self, x: usize, y: usize, z: usize, a: usize, b: usize, c: usize) -> bool {
        x == a && y == b && z == c
    }

    fn get(&self, x: usize, y: usize, z: usize) -> (r: Sample) {
        self.lookup((x, y, z), (0, EMPTY_SAMPLE)).1
    }
}

impl Atlasify<u8> for SparseChunk {
    /// Every position can be read.
    open spec fn atlas_readable(&self, x: usize, y: usize, z: usize) -> bool {
        true
    }

    /// The stored atlas index, 0 where nothing is stored.
    open spec fn atlas_at(&self, x: usize, y: usize, z: usize) -> u8 {
        if self.cells().contains_key((x, y, z)) {
            self.cells()[(x, y, z)].0
        } else {
            0
        }
    }

    /// Only equal positions share a cell.
    open spec fn same_atlas_cell(&self, x: usize, y: usize, z: usize, a: usize, b: usize, c: usize) -> bool {
        x == a && y == b && z == c
    }

    fn get_atlas(&self, x: usize, y: usize, z: usize) -> (r: u8) {
        self.lookup((x, y, z), (0, EMPTY_SAMPLE)).0
    }
}

impl ChunkifyMut<Sample> for SparseChunk {
    /// Stores `value` at `(x, y, z)`, keeping the atlas index read there.
    fn set(&mut self, x: usize, y: usize, z: usize, value: Sample)
        ensures
            final(self).cells() == old(self).cells().insert(
                (x, y, z),
                (old(self).atlas_at(x, y, z), value),
            ),
            final(self).size_x() == old(self).size_x(),
            final(self).size_y() == old(self).size_y(),
            final(self).size_z() == old(self).size_z(),
    {
        let atlas = self.get_atlas(x, y, z);
        self.store((x, y, z), (atlas, value));
    }
}

impl AtlasifyMut<u8> for SparseChunk {
    /// Stores atlas index `value` at `(x, y, z)`, keeping the sample read
    /// there.
    fn set_atlas(&mut self, x: usize, y: usize, z: usize, value: u8)
        ensures
            final(self).cells() == old(self).cells().insert(
                (x, y, z),
                (value, old(self).sample_at(x, y, z)),
            ),
            final(self).size_x() == old(self).size_x(),
            final(self).size_y() == old(self).size_y(),
            final(self).size_z() == old(self).size_z(),
    {
        let sample = self.get(x, y, z);
        self.store((x, y, z), (value, sample));
    }
}

} // verus!
