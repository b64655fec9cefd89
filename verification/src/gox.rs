//! Turning a Goxel scene into voxel chunks and a color atlas.
//!
//! A Goxel scene is a list of 16 x 16 x 16 blocks of colors and a list of
//! placements of those blocks in space. The scene is painted into one voxel
//! field that spans all placements (Goxel's `z` axis becomes the field's `y`
//! axis), every distinct color gets a tile of a color atlas, and the field is
//! cut into chunks of 16 voxels.
use vstd::prelude::*;

use crate::chunk::{Sample, EMPTY_SAMPLE};
use crate::voxel;
use crate::gox_file::{check_gox_file, gox_file_ok};
use crate::texture::{
    blank,
    blit,
    in_patch,
    lemma_blit_full_tile,
    lemma_small_blit_fits,
    patch_source,
    rgba,
    tile_origin_x,
    tile_origin_y,
    TextureAtlas2d,
    TextureView,
    Texturify2d,
};
use crate::chunker::{
    flat_chunks,
    lemma_index_bound,
    lemma_index_injective,
    lemma_layers_monotone,
    Chunked,
    FieldView,
    FlatChunker,
};

verus! {

/// Edge of a Goxel block, in voxels.
pub const BLOCK_EDGE: usize = 16;

/// Number of voxels of a Goxel block.
pub const BLOCK_VOXELS: usize = 4096;

/// The sample of a solid voxel, 1.0.
pub const SOLID_SAMPLE: Sample = 0x3F80_0000;

/// A block placed in a Goxel scene: which block, and the coordinates of its
/// first voxel.
#[derive(Clone, Copy, Debug)]
pub struct GoxPlacement {
    pub block_index: usize,
    pub x: i32,
    pub y: i32,
    pub z: i32,
}

/// The content of a Goxel scene: the colors of each block, voxel
/// `(x, y, z)` of a block at index `x + 16 * y + 256 * z` (a color whose
/// alpha is 0 is an empty voxel), and the placements of all layers, in order.
#[derive(Debug)]
pub struct GoxScene {
    pub blocks: Vec<Vec<[u8; 4]>>,
    pub placements: Vec<GoxPlacement>,
}

/// The content of a Goxel scene as values: the colors of each block and the
/// placements, in order.
pub struct SceneView {
    pub blocks: Seq<Seq<[u8; 4]>>,
    pub placements: Seq<GoxPlacement>,
}

impl View for GoxScene {
    type V = SceneView;

    open spec fn view(&self) -> SceneView {
        SceneView {
            blocks: self.blocks@.map_values(|b: Vec<[u8; 4]>| b@),
            placements: self.placements@,
        }
    }
}

/// Coordinate `axis` (0 for `x`, 1 for `y`, 2 for `z`) of a placement.
pub open spec fn start(p: GoxPlacement, axis: int) -> int {
    if axis == 0 {
        p.x as int
    } else if axis == 1 {
        p.y as int
    } else {
        p.z as int
    }
}

/// The smallest coordinate `axis` of the placements (0 when there are none).
pub open spec fn min_start(ps: Seq<GoxPlacement>, axis: int) -> int
    decreases ps.len(),
{
    if ps.len() == 0 {
        0
    } else if ps.len() == 1 {
        start(ps[0], axis)
    } else {
        let m = min_start(ps.drop_last(), axis);
        let v = start(ps.last(), axis);
        if v < m {
            v
        } else {
            m
        }
    }
}

/// The largest coordinate `axis` of the placements (0 when there are none).
pub open spec fn max_start(ps: Seq<GoxPlacement>, axis: int) -> int
    decreases ps.len(),
{
    if ps.len() == 0 {
        0
    } else if ps.len() == 1 {
        start(ps[0], axis)
    } else {
        let m = max_start(ps.drop_last(), axis);
        let v = start(ps.last(), axis);
        if v > m {
            v
        } else {
            m
        }
    }
}

/// Number of voxels of the painted field along Goxel axis `axis`: from the
/// smallest placement coordinate to one past the end of the furthest block.
pub open spec fn scene_dim(sc: SceneView, axis: int) -> int {
    max_start(sc.placements, axis) + 17 - min_start(sc.placements, axis)
}

/// Number of voxels of the painted field.
pub open spec fn scene_voxels(sc: SceneView) -> int {
    scene_dim(sc, 0) * scene_dim(sc, 1) * scene_dim(sc, 2)
}

/// Voxel `(x, y, z)` of a block visited at step `s` of the painting: steps
/// run over the placements, and in each over `x`, then `y`, then `z`, `z`
/// varying fastest.
pub open spec fn step_voxel(s: int) -> (int, int, int) {
    let v = s % 4096;
    (v / 256, (v / 16) % 16, v % 16)
}

/// The placement painted at step `s`.
pub open spec fn step_placement(sc: SceneView, s: int) -> GoxPlacement {
    sc.placements[s / 4096]
}

/// The color of the voxel visited at step `s`.
pub open spec fn step_color(sc: SceneView, s: int) -> [u8; 4] {
    let p = step_placement(sc, s);
    let (x, y, z) = step_voxel(s);
    sc.blocks[p.block_index as int][x + 16 * y + 256 * z]
}

/// Position in the field of the voxel visited at step `s`: Goxel's `y`
/// becomes the field's `z` and Goxel's `z` the field's `y`, so the field is
/// `scene_dim(0)` wide, `scene_dim(2)` high and `scene_dim(1)` deep.
pub open spec fn step_target(sc: SceneView, s: int) -> int {
    let p = step_placement(sc, s);
    let (x, y, z) = step_voxel(s);
    let xc = x + p.x - min_start(sc.placements, 0);
    let yc = y + p.y - min_start(sc.placements, 1);
    let zc = z + p.z - min_start(sc.placements, 2);
    xc + zc * scene_dim(sc, 0) + yc * scene_dim(sc, 2) * scene_dim(sc, 0)
}

/// The state of the painting: the distinct colors met so far, in order of
/// first appearance, and the samples and atlas indices of the field.
pub struct GoxPaint {
    pub palette: Seq<[u8; 4]>,
    pub values: Seq<Sample>,
    pub atlas: Seq<u8>,
}

/// Index of color `c` in the palette, or the palette's length when the color
/// is new (the index it gets when appended).
pub open spec fn color_slot(palette: Seq<[u8; 4]>, c: [u8; 4]) -> int {
    if palette.contains(c) {
        choose|i: int| 0 <= i < palette.len() && palette[i] == c
    } else {
        palette.len() as int
    }
}

/// One step of the painting: an empty voxel changes nothing; a colored one
/// gets the color's palette index (adding the color when new) and, when that
/// index fits in a `u8`, its field voxel becomes solid with that atlas index.
pub open spec fn paint_step(sc: SceneView, st: GoxPaint, s: int) -> GoxPaint {
    let c = step_color(sc, s);
    if c[3] == 0 {
        st
    } else {
        let i = color_slot(st.palette, c);
        let palette = if i == st.palette.len() {
            st.palette.push(c)
        } else {
            st.palette
        };
        if i <= 255 {
            let t = step_target(sc, s);
            GoxPaint {
                palette,
                values: st.values.update(t, SOLID_SAMPLE),
                atlas: st.atlas.update(t, i as u8),
            }
        } else {
            GoxPaint { palette, ..st }
        }
    }
}

/// The painting after its first `s` steps; it starts from an empty palette
/// and an empty field with atlas index 0 everywhere.
pub open spec fn gox_paint(sc: SceneView, s: int) -> GoxPaint
    decreases s,
{
    if s <= 0 {
        GoxPaint {
            palette: Seq::empty(),
            values: Seq::new(scene_voxels(sc) as nat, |i: int| EMPTY_SAMPLE),
            atlas: Seq::new(scene_voxels(sc) as nat, |i: int| 0u8),
        }
    } else {
        paint_step(sc, gox_paint(sc, s - 1), s - 1)
    }
}

/// The painting once every voxel of every placement has been visited.
pub open spec fn painted(sc: SceneView) -> GoxPaint {
    gox_paint(sc, sc.placements.len() * 4096int)
}

/// The painted field, `x` varying fastest, then Goxel's `z`, then Goxel's `y`.
pub open spec fn scene_field(sc: SceneView) -> FieldView {
    FieldView {
        data: painted(sc).values,
        atlas: painted(sc).atlas,
        width: scene_dim(sc, 0) as nat,
        height: scene_dim(sc, 2) as nat,
        depth: scene_dim(sc, 1) as nat,
    }
}

/// The view of a scene lists its placements and, for each block, its colors.
proof fn lemma_scene_view(scene: &GoxScene)
    ensures
        scene@.placements == scene.placements@,
        scene@.blocks.len() == scene.blocks@.len(),
        forall|b: int| 0 <= b < scene.blocks@.len() ==> #[trigger] scene@.blocks[b] == scene.blocks@[b]@,
{
}

/// Every placement names a block of the scene.
pub open spec fn placements_named(sc: SceneView) -> bool {
    forall|i: int| 0 <= i < sc.placements.len() ==> #[trigger] sc.placements[i].block_index < sc.blocks.len()
}

/// Scenes that can be painted: at least one placement, every placement names
/// a block, every block has 4096 voxels, and the field's bounds and size are
/// computed without overflow.
pub open spec fn scene_paintable(sc: SceneView) -> bool {
    &&& sc.placements.len() > 0
    &&& forall|i: int|
        0 <= i < sc.placements.len() ==> #[trigger] sc.placements[i].block_index
            < sc.blocks.len()
    &&& forall|b: int| 0 <= b < sc.blocks.len() ==> #[trigger] sc.blocks[b].len() == 4096
    &&& forall|axis: int|
        0 <= axis < 3 ==> {
            &&& #[trigger] max_start(sc.placements, axis) + 16 <= i32::MAX
            &&& scene_dim(sc, axis) <= i32::MAX
        }
    &&& scene_voxels(sc) <= usize::MAX
}

/// Scenes that can be loaded: paintable scenes with at most 256 distinct
/// colors (a color's palette index must fit in a byte).
pub open spec fn scene_loadable(sc: SceneView) -> bool {
    &&& scene_paintable(sc)
    &&& painted(sc).palette.len() <= 256
}

/// Every placement lies between the smallest and the largest coordinate.
pub proof fn lemma_start_bounds(ps: Seq<GoxPlacement>, axis: int, i: int)
    requires
        0 <= i < ps.len(),
    ensures
        min_start(ps, axis) <= start(ps[i], axis) <= max_start(ps, axis),
    decreases ps.len(),
{
    if ps.len() > 1 && i < ps.len() - 1 {
        lemma_start_bounds(ps.drop_last(), axis, i);
        assert(ps.drop_last()[i] == ps[i]);
    }
}

/// Decoding a step into its placement and voxel.
proof fn lemma_step_decode(p: int, x: int, y: int, z: int)
    requires
        0 <= p,
        0 <= x < 16,
        0 <= y < 16,
        0 <= z < 16,
    ensures
        (p * 4096 + x * 256 + y * 16 + z) / 4096 == p,
        step_voxel(p * 4096 + x * 256 + y * 16 + z) == (x, y, z),
{
    let s = p * 4096 + x * 256 + y * 16 + z;
    let v = x * 256 + y * 16 + z;
    vstd::arithmetic::div_mod::lemma_fundamental_div_mod_converse(s, 4096, p, v);
    vstd::arithmetic::div_mod::lemma_fundamental_div_mod_converse(v, 256, x, y * 16 + z);
    vstd::arithmetic::div_mod::lemma_fundamental_div_mod_converse(v, 16, x * 16 + y, z);
    vstd::arithmetic::div_mod::lemma_fundamental_div_mod_converse(x * 16 + y, 16, x, y);
}

/// Coordinate `axis` of a placement.
fn coordinate(p: GoxPlacement, axis: usize) -> (r: i32)
    ensures
        r == start(p, axis as int),
{
    if axis == 0 {
        p.x
    } else if axis == 1 {
        p.y
    } else {
        p.z
    }
}

/// Smallest and largest coordinate `axis` of the placements.
fn start_bounds(ps: &Vec<GoxPlacement>, axis: usize) -> (r: (i32, i32))
    requires
        ps@.len() > 0,
    ensures
        r.0 == min_start(ps@, axis as int),
        r.1 == max_start(ps@, axis as int),
{
    let mut lo = coordinate(ps[0], axis);
    let mut hi = lo;
    let mut i: usize = 1;
    assert(ps@.take(1) =~= seq![ps@[0]]);
    while i < ps.len()
        invariant
            1 <= i <= ps@.len(),
            lo == min_start(ps@.take(i as int), axis as int),
            hi == max_start(ps@.take(i as int), axis as int),
        decreases ps@.len() - i,
    {
        let v = coordinate(ps[i], axis);
        assert(ps@.take(i + 1).drop_last() =~= ps@.take(i as int));
        if v < lo {
            lo = v;
        }
        if v > hi {
            hi = v;
        }
        i += 1;
    }
    assert(ps@.take(ps@.len() as int) =~= ps@);
    (lo, hi)
}

/// Index of `color` in a palette without duplicates, or the palette's length
/// when the color is not in it.
fn palette_slot(palette: &Vec<[u8; 4]>, color: [u8; 4]) -> (r: usize)
    requires
        palette@.no_duplicates(),
    ensures
        r == color_slot(palette@, color),
{
    let mut i: usize = 0;
    while i < palette.len()
        invariant
            i <= palette@.len(),
            palette@.no_duplicates(),
            forall|k: int| 0 <= k < i ==> palette@[k] != color,
        decreases palette@.len() - i,
    {
        let value = palette[i];
        if value[0] == color[0] && value[1] == color[1] && value[2] == color[2] && value[3]
            == color[3] {
            assert(value =~= color);
            assert(palette@[i as int] == color);
            assert(palette@.contains(color));
            let ghost j = choose|j: int| 0 <= j < palette@.len() && palette@[j] == color;
            assert(0 <= j < palette@.len() && palette@[j] == color);
            assert(j == i);
            return i;
        }
        i += 1;
    }
    assert(!palette@.contains(color));
    i
}

/// Field position of voxel `(x, y, z)` of a block placed `(ox, oy, oz)`
/// voxels from the field's corner lies inside the field.
proof fn lemma_target_bound(
    d0: int,
    d1: int,
    d2: int,
    xc: int,
    yc: int,
    zc: int,
)
    requires
        0 <= xc < d0,
        0 <= yc < d1,
        0 <= zc < d2,
    ensures
        0 <= zc * d0,
        0 <= yc * d2 <= yc * d2 * d0,
        xc + zc * d0 + yc * d2 * d0 < d0 * d1 * d2,
{
    lemma_index_bound(d0, d2, xc, zc, yc);
    lemma_layers_monotone(d0, d2, yc + 1, d1);
    assert(yc * d2 * d0 == yc * d0 * d2) by (nonlinear_arith);
    assert(0 <= yc * d2 <= yc * d2 * d0) by (nonlinear_arith)
        requires
            0 <= yc,
            0 <= d2,
            1 <= d0,
    ;
    assert(d0 * d2 * d1 == d0 * d1 * d2) by (nonlinear_arith);
}

/// The painting state held by `palette`, `values` and `atlas` is the
/// painting after its first `s` steps.
pub open spec fn paint_state_is(
    sc: SceneView,
    s: int,
    palette: Seq<[u8; 4]>,
    values: Seq<Sample>,
    atlas: Seq<u8>,
) -> bool {
    &&& palette == gox_paint(sc, s).palette
    &&& values == gox_paint(sc, s).values
    &&& atlas == gox_paint(sc, s).atlas
    &&& palette.no_duplicates()
    &&& values.len() == scene_voxels(sc)
    &&& atlas.len() == scene_voxels(sc)
}

/// The bounds of a loadable scene, as computed by `load`.
pub open spec fn scene_bounds_are(sc: SceneView, min: [i32; 3], dims: [usize; 3]) -> bool {
    &&& scene_paintable(sc)
    &&& forall|a: int| 0 <= a < 3 ==> min[a] == #[trigger] min_start(sc.placements, a)
    &&& forall|a: int| 0 <= a < 3 ==> dims[a] == #[trigger] scene_dim(sc, a)
}

/// Step `p * 4096 + x * 256 + y * 16 + z` of the painting: voxel `(x, y, z)`
/// of placement `p`, whose block is `block` and whose first voxel is
/// `offset` voxels from the field's corner.
fn paint_voxel(
    scene: &GoxScene,
    dims: [usize; 3],
    block: &Vec<[u8; 4]>,
    offset: [usize; 3],
    p: usize,
    x: usize,
    y: usize,
    z: usize,
    palette: &mut Vec<[u8; 4]>,
    values: &mut Vec<Sample>,
    atlas: &mut Vec<u8>,
)
    requires
        scene_paintable(scene@),
        forall|a: int| 0 <= a < 3 ==> dims[a] == #[trigger] scene_dim(scene@, a),
        p < scene.placements@.len(),
        block@ == scene@.blocks[scene@.placements[p as int].block_index as int],
        offset[0] == scene.placements@[p as int].x - min_start(scene.placements@, 0),
        offset[1] == scene.placements@[p as int].y - min_start(scene.placements@, 1),
        offset[2] == scene.placements@[p as int].z - min_start(scene.placements@, 2),
        x < 16 && y < 16 && z < 16,
        paint_state_is(
            scene@,
            p * 4096 + x * 256 + y * 16 + z,
            old(palette)@,
            old(values)@,
            old(atlas)@,
        ),
    ensures
        paint_state_is(
            scene@,
            p * 4096 + x * 256 + y * 16 + z + 1,
            final(palette)@,
            final(values)@,
            final(atlas)@,
        ),
{
    let ghost sc = scene@;
    let ghost s = p * 4096 + x * 256 + y * 16 + z;
    proof {
        lemma_step_decode(p as int, x as int, y as int, z as int);
        lemma_start_bounds(sc.placements, 0, p as int);
        lemma_start_bounds(sc.placements, 1, p as int);
        lemma_start_bounds(sc.placements, 2, p as int);
        assert(scene_dim(sc, 0) == dims[0] && scene_dim(sc, 1) == dims[1] && scene_dim(sc, 2)
            == dims[2]);
        assert(sc.blocks[sc.placements[p as int].block_index as int].len() == 4096);
    }
    let color = block[x + 16 * y + 256 * z];
    if color[3] != 0 {
        let index = palette_slot(palette, color);
        if index == palette.len() {
            palette.push(color);
        }
        if index <= 255 {
            let x_c = x + offset[0];
            let y_c = y + offset[1];
            let z_c = z + offset[2];
            proof {
                lemma_target_bound(
                    dims[0] as int,
                    dims[1] as int,
                    dims[2] as int,
                    x_c as int,
                    y_c as int,
                    z_c as int,
                );
            }
            let idx = x_c + z_c * dims[0] + y_c * dims[2] * dims[0];
            values.set(idx, SOLID_SAMPLE);
            atlas.set(idx, index as u8);
        }
    }
}

/// Paints every placement of the scene into a field of the scene's size:
/// returns the palette, the samples and the atlas indices.
fn paint(scene: &GoxScene, min: [i32; 3], dims: [usize; 3]) -> (r: (
    Vec<[u8; 4]>,
    Vec<Sample>,
    Vec<u8>,
))
    requires
        scene_bounds_are(scene@, min, dims),
    ensures
        r.0@ == painted(scene@).palette,
        r.1@ == painted(scene@).values,
        r.2@ == painted(scene@).atlas,
        r.1@.len() == scene_voxels(scene@),
        r.2@.len() == scene_voxels(scene@),
{
    let ghost sc = scene@;
    assert(dims[0] == scene_dim(sc, 0) && dims[1] == scene_dim(sc, 1) && dims[2] == scene_dim(
        sc,
        2,
    ));
    assert(max_start(sc.placements, 0) + 16 <= i32::MAX);
    assert(max_start(sc.placements, 1) + 16 <= i32::MAX);
    assert(max_start(sc.placements, 2) + 16 <= i32::MAX);
    proof {
        lemma_start_bounds(sc.placements, 2, 0);
    }
    assert(dims[0] * dims[1] <= dims[0] * dims[1] * dims[2]) by (nonlinear_arith)
        requires
            dims[2] >= 1,
    ;
    let size: usize = dims[0] * dims[1] * dims[2];
    let mut values: Vec<Sample> = Vec::with_capacity(size);
    let mut atlas: Vec<u8> = Vec::with_capacity(size);
    let mut k: usize = 0;
    while k < size
        invariant
            k <= size,
            values@ =~= Seq::new(k as nat, |i: int| EMPTY_SAMPLE),
            atlas@ =~= Seq::new(k as nat, |i: int| 0u8),
        decreases size - k,
    {
        values.push(EMPTY_SAMPLE);
        atlas.push(0);
        k += 1;
    }
    let mut palette: Vec<[u8; 4]> = Vec::new();
    let mut p: usize = 0;
    while p < scene.placements.len()
        invariant
            scene_bounds_are(sc, min, dims),
            scene@ == sc,
            p <= sc.placements.len(),
            paint_state_is(sc, p * 4096, palette@, values@, atlas@),
        decreases sc.placements.len() - p,
    {
        let placement = scene.placements[p];
        let block = &scene.blocks[placement.block_index];
        proof {
            lemma_start_bounds(sc.placements, 0, p as int);
            lemma_start_bounds(sc.placements, 1, p as int);
            lemma_start_bounds(sc.placements, 2, p as int);
        }
        let offset: [usize; 3] = [
            (placement.x - min[0]) as usize,
            (placement.y - min[1]) as usize,
            (placement.z - min[2]) as usize,
        ];
        let mut x: usize = 0;
        while x < BLOCK_EDGE
            invariant
                scene_bounds_are(sc, min, dims),
                scene@ == sc,
                p < sc.placements.len(),
                block@ == sc.blocks[sc.placements[p as int].block_index as int],
                offset[0] == sc.placements[p as int].x - min_start(sc.placements, 0),
                offset[1] == sc.placements[p as int].y - min_start(sc.placements, 1),
                offset[2] == sc.placements[p as int].z - min_start(sc.placements, 2),
                x <= 16,
                paint_state_is(sc, p * 4096 + x * 256, palette@, values@, atlas@),
            decreases 16 - x,
        {
            let mut y: usize = 0;
            while y < BLOCK_EDGE
                invariant
                    scene_bounds_are(sc, min, dims),
                    scene@ == sc,
                    p < sc.placements.len(),
                    block@ == sc.blocks[sc.placements[p as int].block_index as int],
                    offset[0] == sc.placements[p as int].x - min_start(sc.placements, 0),
                    offset[1] == sc.placements[p as int].y - min_start(sc.placements, 1),
                    offset[2] == sc.placements[p as int].z - min_start(sc.placements, 2),
                    x < 16,
                    y <= 16,
                    paint_state_is(sc, p * 4096 + x * 256 + y * 16, palette@, values@, atlas@),
                decreases 16 - y,
            {
                let mut z: usize = 0;
                while z < BLOCK_EDGE
                    invariant
                        scene_bounds_are(sc, min, dims),
                        scene@ == sc,
                        p < sc.placements.len(),
                        block@ == sc.blocks[sc.placements[p as int].block_index as int],
                        offset[0] == sc.placements[p as int].x - min_start(sc.placements, 0),
                        offset[1] == sc.placements[p as int].y - min_start(sc.placements, 1),
                        offset[2] == sc.placements[p as int].z - min_start(sc.placements, 2),
                        x < 16,
                        y < 16,
                        z <= 16,
                        paint_state_is(
                            sc,
                            p * 4096 + x * 256 + y * 16 + z,
                            palette@,
                            values@,
                            atlas@,
                        ),
                    decreases 16 - z,
                {
                    paint_voxel(
                        scene,
                        dims,
                        block,
                        offset,
                        p,
                        x,
                        y,
                        z,
                        &mut palette,
                        &mut values,
                        &mut atlas,
                    );
                    z += 1;
                }
                y += 1;
            }
            x += 1;
        }
        p += 1;
    }
    (palette, values, atlas)
}

/// Number of texels on a side of the color atlas: 16 tiles of one texel,
/// each with one texel of padding on every side.
pub const ATLAS_SIDE: u32 = 48;

/// The color atlas of a palette: on a blank texture of 48 by 48 texels, tile
/// `i` (with its padding) is filled with color `i` of the palette, in order.
pub open spec fn palette_atlas(palette: Seq<[u8; 4]>) -> TextureView
    decreases palette.len(),
{
    if palette.len() == 0 {
        blank(48, 48)
    } else {
        let i = (palette.len() - 1) as u8;
        blit(
            palette_atlas(palette.drop_last()),
            tile_origin_x(i, 48, 1),
            tile_origin_y(i, 48, 48, 1),
            1,
            1,
            seq![palette.last()],
        )
    }
}

/// In the color atlas, tile `i` starts at texel `(3 * (i % 16) + 1, 3 * (15 - i / 16) + 1)`.
proof fn lemma_color_tile_origin(i: u8)
    ensures
        tile_origin_x(i, 48, 1) == 3 * (i % 16) + 1,
        tile_origin_y(i, 48, 48, 1) == 3 * (15 - i / 16) + 1,
{
    let col = i as int % 16;
    let row = i as int / 16;
    assert(0 <= row < 16);
    vstd::arithmetic::div_mod::lemma_fundamental_div_mod_converse(col * 48, 16, col * 3, 0);
    let n = (15 - row) * 48 * 48 + 16 * 1 * 48;
    assert(n == ((15 - row) * 3 + 1) * 768);
    vstd::arithmetic::div_mod::lemma_fundamental_div_mod_converse(n, 768, (15 - row) * 3 + 1, 0);
}

/// The color atlas of a palette of at most 256 colors: tiles of one texel
/// with one texel of padding, tile `i` filled with color `i`.
fn palette_texture<T: Texturify2d>(palette: &Vec<[u8; 4]>) -> (r: TextureAtlas2d<T>)
    requires
        palette@.len() <= 256,
    ensures
        r.atlas_tex() == palette_atlas(palette@),
        r.tile() == 1,
        r.padding() == 1,
{
    assert(4 * (16 * (1 + 2)) * (16 * (1 + 2)) <= usize::MAX) by (nonlinear_arith);
    let mut atlas: TextureAtlas2d<T> = TextureAtlas2d::new(1);
    let mut i: usize = 0;
    assert(palette@.take(0) =~= Seq::<[u8; 4]>::empty());
    while i < palette.len()
        invariant
            i <= palette@.len() <= 256,
            atlas.atlas_tex() == palette_atlas(palette@.take(i as int)),
            atlas.atlas_tex().wf(),
            atlas.atlas_tex().width == 48 && atlas.atlas_tex().height == 48,
            atlas.tile() == 1,
            atlas.padding() == 1,
        decreases palette@.len() - i,
    {
        let index = i as u8;
        proof {
            lemma_color_tile_origin(index);
        }
        let ghost before = atlas.atlas_tex();
        proof {
            assert(4 * before.width * before.height <= u32::MAX + 4);
            lemma_small_blit_fits(before, atlas.origin_x(index), atlas.origin_y(index), 1, 1, 0);
        }
        atlas.fill_at_index(index, palette[i]);
        proof {
            let pixels = Seq::new(1, |k: int| palette@[i as int]);
            assert(pixels =~= seq![palette@.take(i + 1).last()]);
            assert(palette@.take(i + 1).drop_last() =~= palette@.take(i as int));
            lemma_blit_full_tile(
                before,
                tile_origin_x(index, 48, 1),
                tile_origin_y(index, 48, 48, 1),
                1,
                1,
                pixels,
                0,
                0,
            );
        }
        i += 1;
    }
    assert(palette@.take(palette@.len() as int) =~= palette@);
    atlas
}

/// Size of the chunks a scene is cut into: Goxel's block size.
pub open spec fn gox_chunk_size() -> [u16; 3] {
    [16u16, 16u16, 16u16]
}

/// The scene that the `gox` crate reads from the bytes of a Goxel file: its
/// blocks and the placements of its layers, in file order (the crate keeps
/// the layers only when the file has an `IMG ` chunk).
pub uninterp spec fn gox_scene_of(bytes: Seq<u8>) -> SceneView;

/// Parses the bytes of a Goxel file with `gox::Gox::from_bytes`, keeping
/// layers and blocks, and lists the colors of every block and the placements
/// of every layer, in file order. Trusted: the result is the scene that the
/// parser gives for these bytes, and every block has 4096 colors (the parser
/// allocates each block's colors at that size). The `requires` leaves out
/// the bytes on which the parser panics (see `gox_file_ok`).
#[verifier::external_body]
fn parse_scene(bytes: Vec<u8>) -> (r: GoxScene)
    requires
        gox_file_ok(bytes@),
    ensures
        r@ == gox_scene_of(bytes@),
        forall|b: int| 0 <= b < r@.blocks.len() ==> #[trigger] r@.blocks[b].len() == 4096,
{
    let parsed = gox::Gox::from_bytes(bytes, vec![gox::Only::Layers, gox::Only::Blocks]);
    let mut scene = GoxScene { blocks: Vec::new(), placements: Vec::new() };
    for data in parsed.data {
        match data {
            gox::Data::Blocks(block) => scene.blocks.push(block.colors),
            gox::Data::Layers(layers, _) => {
                for c in layers.into_iter().flat_map(|layer| layer.blocks) {
                    scene.placements.push(GoxPlacement { block_index: c.block_index, x: c.x, y: c.y, z: c.z });
                }
            },
            gox::Data::Camera(_) => {},
        }
    }
    scene
}

/// Whether the scene can be loaded: it is paintable (see `scene_paintable`)
/// and its painting meets at most 256 distinct colors.
pub fn is_loadable(scene: &GoxScene) -> (r: bool)
    ensures
        r == scene_loadable(scene@),
{
    let ghost sc = scene@;
    let n = scene.placements.len();
    if n == 0 {
        return false;
    }
    let mut i: usize = 0;
    while i < n
        invariant
            n == sc.placements.len(),
            sc == scene@,
            i <= n,
            forall|k: int| 0 <= k < i ==> #[trigger] sc.placements[k].block_index < sc.blocks.len(),
        decreases n - i,
    {
        if scene.placements[i].block_index >= scene.blocks.len() {
            return false;
        }
        i += 1;
    }
    let mut b: usize = 0;
    while b < scene.blocks.len()
        invariant
            sc == scene@,
            b <= sc.blocks.len(),
            forall|k: int| 0 <= k < b ==> #[trigger] sc.blocks[k].len() == 4096,
        decreases sc.blocks.len() - b,
    {
        if scene.blocks[b].len() != BLOCK_VOXELS {
            assert(sc.blocks[b as int] == scene.blocks@[b as int]@);
            return false;
        }
        b += 1;
    }
    let (min_x, max_x) = start_bounds(&scene.placements, 0);
    let (min_y, max_y) = start_bounds(&scene.placements, 1);
    let (min_z, max_z) = start_bounds(&scene.placements, 2);
    let lo: [i64; 3] = [min_x as i64, min_y as i64, min_z as i64];
    let hi: [i64; 3] = [max_x as i64 + 16, max_y as i64 + 16, max_z as i64 + 16];
    let mut a: usize = 0;
    while a < 3
        invariant
            sc == scene@,
            a <= 3,
            sc.placements.len() > 0,
            forall|k: int| 0 <= k < 3 ==> lo[k] == min_start(sc.placements, k) && hi[k] == max_start(sc.placements, k) + 16,
            forall|k: int| 0 <= k < 3 ==> i32::MIN <= lo[k] <= i32::MAX && hi[k] <= i32::MAX + 16 && hi[k] >= i32::MIN + 16,
            forall|k: int| 0 <= k < a ==> {
                &&& #[trigger] max_start(sc.placements, k) + 16 <= i32::MAX
                &&& scene_dim(sc, k) <= i32::MAX
            },
        decreases 3 - a,
    {
        proof {
            lemma_start_bounds(sc.placements, a as int, 0);
        }
        if hi[a] > i32::MAX as i64 || hi[a] - lo[a] + 1 > i32::MAX as i64 {
            return false;
        }
        a += 1;
    }
    let ghost d0 = scene_dim(sc, 0);
    let ghost d1 = scene_dim(sc, 1);
    let ghost d2 = scene_dim(sc, 2);
    assert(d0 <= i32::MAX && d1 <= i32::MAX && d2 <= i32::MAX);
    proof {
        lemma_start_bounds(sc.placements, 0, 0);
        lemma_start_bounds(sc.placements, 1, 0);
        lemma_start_bounds(sc.placements, 2, 0);
    }
    let dims: [usize; 3] = [
        (hi[0] - lo[0] + 1) as usize,
        (hi[1] - lo[1] + 1) as usize,
        (hi[2] - lo[2] + 1) as usize,
    ];
    assert(dims[0] as u128 * dims[1] as u128 <= 0x7fff_ffff * 0x7fff_ffffu128) by (nonlinear_arith)
        requires
            dims[0] <= 0x7fff_ffff,
            dims[1] <= 0x7fff_ffff,
    ;
    assert(dims[0] as u128 * dims[1] as u128 * dims[2] as u128 <= 0x7fff_ffff * 0x7fff_ffffu128 * 0x7fff_ffffu128) by (nonlinear_arith)
        requires
            dims[0] as u128 * dims[1] as u128 <= 0x7fff_ffff * 0x7fff_ffffu128,
            dims[2] <= 0x7fff_ffff,
    ;
    let voxels: u128 = dims[0] as u128 * dims[1] as u128 * dims[2] as u128;
    assert(voxels == scene_voxels(sc));
    if voxels > usize::MAX as u128 {
        return false;
    }
    let min: [i32; 3] = [min_x, min_y, min_z];
    assert(scene_paintable(sc));
    assert(scene_bounds_are(sc, min, dims));
    let (palette, _values, _atlas) = paint(scene, min, dims);
    palette.len() <= 256
}

/// What loading scene `sc` gives: the chunks of 16 voxels of the painted
/// field, and the color atlas of the palette when the painting met a color.
pub open spec fn scene_loaded<T: Texturify2d>(
    sc: SceneView,
    r: (Vec<Chunked>, Option<TextureAtlas2d<T>>),
) -> bool {
    &&& flat_chunks(scene_field(sc), gox_chunk_size(), r.0@)
    &&& match r.1 {
        None => painted(sc).palette.len() == 0,
        Some(atlas) => {
            &&& painted(sc).palette.len() > 0
            &&& atlas.atlas_tex() == palette_atlas(painted(sc).palette)
            &&& atlas.tile() == 1
            &&& atlas.padding() == 1
        },
    }
}

/// Reads Goxel scenes into voxel chunks and a color atlas.
pub struct GoxReader;

impl GoxReader {
    /// Paints the scene into one voxel field, solid voxels with sample 1.0
    /// and the palette index of their color as atlas index, empty ones with
    /// sample -1.0 and atlas index 0; cuts the field into chunks of 16 voxels,
    /// each with its location in the field; and, when the scene has colors,
    /// draws each distinct color on a tile of a color atlas.
    pub fn load<T: Texturify2d>(scene: &GoxScene) -> (r: (Vec<Chunked>, Option<TextureAtlas2d<T>>))
        requires
            scene_loadable(scene@),
        ensures
            scene_loaded(scene@, r),
    {
        let ghost sc = scene@;
        let (min_x, max_x) = start_bounds(&scene.placements, 0);
        let (min_y, max_y) = start_bounds(&scene.placements, 1);
        let (min_z, max_z) = start_bounds(&scene.placements, 2);
        assert(max_start(sc.placements, 0) + 16 <= i32::MAX && scene_dim(sc, 0) <= i32::MAX);
        assert(max_start(sc.placements, 1) + 16 <= i32::MAX && scene_dim(sc, 1) <= i32::MAX);
        assert(max_start(sc.placements, 2) + 16 <= i32::MAX && scene_dim(sc, 2) <= i32::MAX);
        proof {
            lemma_start_bounds(sc.placements, 0, 0);
            lemma_start_bounds(sc.placements, 1, 0);
            lemma_start_bounds(sc.placements, 2, 0);
        }
        let min: [i32; 3] = [min_x, min_y, min_z];
        let max: [i32; 3] = [max_x + 16, max_y + 16, max_z + 16];
        let dims: [usize; 3] = [
            (max[0] - min[0] + 1) as usize,
            (max[1] - min[1] + 1) as usize,
            (max[2] - min[2] + 1) as usize,
        ];
        assert(scene_bounds_are(sc, min, dims));
        let (palette, values, atlas_values) = paint(scene, min, dims);
        let ghost f = scene_field(sc);
        assert(dims[0] * dims[2] * dims[1] == dims[0] * dims[1] * dims[2]) by (nonlinear_arith);
        assert(dims[0] + 17 <= usize::MAX) by (nonlinear_arith)
            requires
                dims[0] * dims[1] * dims[2] <= usize::MAX,
                dims[1] >= 17,
                dims[2] >= 17,
        ;
        assert(dims[1] + 17 <= usize::MAX) by (nonlinear_arith)
            requires
                dims[0] * dims[1] * dims[2] <= usize::MAX,
                dims[0] >= 17,
                dims[2] >= 17,
        ;
        assert(dims[2] + 17 <= usize::MAX) by (nonlinear_arith)
            requires
                dims[0] * dims[1] * dims[2] <= usize::MAX,
                dims[0] >= 17,
                dims[1] >= 17,
        ;
        let mut chunker = FlatChunker::from_array_with_atlas(
            values.as_slice(),
            atlas_values.as_slice(),
            dims[0],
            dims[2],
            dims[1],
        );
        chunker.set_chunk_size([16, 16, 16]);
        assert(chunker.field() == f);
        assert(chunker.chunk_size() == gox_chunk_size());
        assert(gox_chunk_size()[0] == 16 && gox_chunk_size()[1] == 16 && gox_chunk_size()[2] == 16);
        chunker.generate_chunks();
        let mut chunks: Vec<Chunked> = Vec::new();
        std::mem::swap(&mut chunks, chunker.get_chunks_mut());
        if palette.len() > 0 {
            let atlas = palette_texture(&palette);
            (chunks, Some(atlas))
        } else {
            (chunks, None)
        }
    }

    /// Parses the bytes of a Goxel file and loads the scene they hold (see
    /// `load`); `None` when the parser would fail on the bytes (see
    /// `gox_file_ok`) or the scene cannot be loaded.
    pub fn load_bytes<T: Texturify2d>(bytes: Vec<u8>) -> (r: Option<(Vec<Chunked>, Option<TextureAtlas2d<T>>)>)
        ensures
            match r {
                None => !gox_file_ok(bytes@) || !scene_loadable(gox_scene_of(bytes@)),
                Some(res) => {
                    &&& gox_file_ok(bytes@)
                    &&& scene_loadable(gox_scene_of(bytes@))
                    &&& scene_loaded(gox_scene_of(bytes@), res)
                },
            },
    {
        if !check_gox_file(&bytes) {
            return None;
        }
        let scene = parse_scene(bytes);
        if is_loadable(&scene) {
            Some(Self::load(&scene))
        } else {
            None
        }
    }
}


/// Whether a painting state is consistent: the palette holds distinct colors,
/// none of them transparent, and every voxel of the field is either empty,
/// with atlas index 0, or solid, with the index of a palette color.
pub open spec fn paint_consistent(sc: SceneView, st: GoxPaint) -> bool {
    &&& st.palette.no_duplicates()
    &&& forall|k: int| 0 <= k < st.palette.len() ==> (#[trigger] st.palette[k])[3] != 0
    &&& st.values.len() == scene_voxels(sc)
    &&& st.atlas.len() == scene_voxels(sc)
    &&& forall|t: int|
        0 <= t < scene_voxels(sc) ==> (#[trigger] st.values[t] == EMPTY_SAMPLE && st.atlas[t] == 0)
            || (st.values[t] == SOLID_SAMPLE && st.atlas[t] < st.palette.len())
}

/// A painting step of a loadable scene targets a voxel of the field.
proof fn lemma_step_target_in_field(sc: SceneView, s: int)
    requires
        scene_paintable(sc),
        0 <= s < sc.placements.len() * 4096,
    ensures
        0 <= step_target(sc, s) < scene_voxels(sc),
{
    let p = s / 4096;
    let v = s % 4096;
    vstd::arithmetic::div_mod::lemma_fundamental_div_mod(s, 4096);
    vstd::arithmetic::div_mod::lemma_fundamental_div_mod(v, 256);
    vstd::arithmetic::div_mod::lemma_fundamental_div_mod(v, 16);
    vstd::arithmetic::div_mod::lemma_fundamental_div_mod(v / 16, 16);
    assert(0 <= p < sc.placements.len()) by (nonlinear_arith)
        requires
            s == 4096 * p + v,
            0 <= v < 4096,
            0 <= s < sc.placements.len() * 4096,
    ;
    lemma_start_bounds(sc.placements, 0, p);
    lemma_start_bounds(sc.placements, 1, p);
    lemma_start_bounds(sc.placements, 2, p);
    let (x, y, z) = step_voxel(s);
    let pl = step_placement(sc, s);
    lemma_target_bound(
        scene_dim(sc, 0),
        scene_dim(sc, 1),
        scene_dim(sc, 2),
        x + pl.x - min_start(sc.placements, 0),
        y + pl.y - min_start(sc.placements, 1),
        z + pl.z - min_start(sc.placements, 2),
    );
}

/// One painting step keeps the state consistent.
proof fn lemma_step_consistent(sc: SceneView, prev: GoxPaint, s: int)
    requires
        scene_paintable(sc),
        0 <= s < sc.placements.len() * 4096,
        paint_consistent(sc, prev),
    ensures
        paint_consistent(sc, paint_step(sc, prev, s)),
{
    let st = paint_step(sc, prev, s);
    let c = step_color(sc, s);
    if c[3] != 0 {
        let i = color_slot(prev.palette, c);
        if prev.palette.contains(c) {
            assert(0 <= i < prev.palette.len());
            assert(st.palette == prev.palette);
        } else {
            assert(i == prev.palette.len());
            assert(st.palette == prev.palette.push(c));
            assert forall|a: int, b: int|
                0 <= a < st.palette.len() && 0 <= b < st.palette.len() && a != b implies st.palette[a]
                != st.palette[b] by {
                if a < prev.palette.len() && b < prev.palette.len() {
                    assert(st.palette[a] == prev.palette[a] && st.palette[b] == prev.palette[b]);
                } else if a == prev.palette.len() {
                    assert(st.palette[b] == prev.palette[b]);
                } else {
                    assert(st.palette[a] == prev.palette[a]);
                }
            }
            assert forall|k: int| 0 <= k < st.palette.len() implies (#[trigger] st.palette[k])[3]
                != 0 by {
                if k < prev.palette.len() {
                    assert(st.palette[k] == prev.palette[k]);
                }
            }
        }
        if i <= 255 {
            let t = step_target(sc, s);
            lemma_step_target_in_field(sc, s);
            assert(st.values == prev.values.update(t, SOLID_SAMPLE));
            assert(st.atlas == prev.atlas.update(t, i as u8));
            assert forall|u: int| 0 <= u < scene_voxels(sc) implies (#[trigger] st.values[u]
                == EMPTY_SAMPLE && st.atlas[u] == 0) || (st.values[u] == SOLID_SAMPLE
                && st.atlas[u] < st.palette.len()) by {
                if u != t {
                    assert(st.values[u] == prev.values[u]);
                    assert(st.atlas[u] == prev.atlas[u]);
                }
            }
        }
    }
}

/// Every voxel of the painted field is either empty, with atlas index 0, or
/// solid, with the index of a palette color as atlas index; the palette holds
/// distinct colors, none of them transparent.
pub proof fn lemma_paint_consistent(sc: SceneView, s: int)
    requires
        scene_paintable(sc),
        0 <= s <= sc.placements.len() * 4096,
    ensures
        paint_consistent(sc, gox_paint(sc, s)),
    decreases s,
{
    if s > 0 {
        lemma_paint_consistent(sc, s - 1);
        lemma_step_consistent(sc, gox_paint(sc, s - 1), s - 1);
    }
}


/// The voxel chunk of a Goxel block: 16 voxels on each side; a voxel of
/// the block with a non-transparent color gets value 255 and that color, the
/// others stay empty with color `[0, 0, 0, 0]`.
pub open spec fn block_chunk(colors: Seq<[u8; 4]>) -> voxel::VoxelView {
    voxel::VoxelView {
        width: 16,
        height: 16,
        depth: 16,
        values: Seq::new(4096, |k: int| if colors[k][3] == 0 { 0u8 } else { 255u8 }),
        colors: Seq::new(
            4096,
            |k: int|
                if colors[k][3] == 0 {
                    [0u8, 0u8, 0u8, 0u8]
                } else {
                    colors[k]
                },
        ),
    }
}

/// Whether block voxel `(a, b, c)` comes before `(x, y, z)` when the voxels
/// are visited with `x` outermost and `z` innermost.
pub open spec fn visited_before(a: int, b: int, c: int, x: int, y: int, z: int) -> bool {
    a < x || (a == x && b < y) || (a == x && b == y && c < z)
}

/// Whether block voxel `(a, b, c)` of a chunk being filled from a block holds
/// its final value and color if it was visited before `(x, y, z)`, and is
/// still empty otherwise.
pub open spec fn block_progress(
    v: voxel::VoxelView,
    target: voxel::VoxelView,
    a: int,
    b: int,
    c: int,
    x: int,
    y: int,
    z: int,
) -> bool {
    let k = a + b * 16 + c * 256;
    if visited_before(a, b, c, x, y, z) {
        &&& v.values[k] == target.values[k]
        &&& v.colors[k] == target.colors[k]
    } else {
        &&& v.values[k] == 0
        &&& v.colors[k] == [0u8, 0u8, 0u8, 0u8]
    }
}

/// Every position of a block is the position of one of its voxels.
proof fn lemma_block_position(k: int)
    requires
        0 <= k < 4096,
    ensures
        ({
            let (a, b, c) = (k % 16, (k / 16) % 16, k / 256);
            &&& 0 <= a < 16 && 0 <= b < 16 && 0 <= c < 16
            &&& k == a + b * 16 + c * 256
        }),
{
    vstd::arithmetic::div_mod::lemma_fundamental_div_mod(k, 16);
    vstd::arithmetic::div_mod::lemma_fundamental_div_mod(k / 16, 16);
    vstd::arithmetic::div_mod::lemma_div_denominator(k, 16, 16);
    assert(k / 16 < 256);
}

/// The voxel chunk of one Goxel block.
fn block_to_chunk(colors: &Vec<[u8; 4]>) -> (r: voxel::Chunk)
    requires
        colors@.len() == 4096,
    ensures
        r.view() == block_chunk(colors@),
{
    let mut chunk = voxel::Chunk::new(16, 16, 16);
    assert(16 * 16 * 16 == 4096) by (nonlinear_arith);
    let ghost target = block_chunk(colors@);
    let ghost start = chunk.view();
    let mut x: usize = 0;
    while x < chunk.width()
        invariant
            x <= 16,
            colors@.len() == 4096,
            target == block_chunk(colors@),
            chunk.view().wf(),
            chunk.view().values.len() == 4096 && chunk.view().colors.len() == 4096,
            chunk.view().width == 16 && chunk.view().height == 16 && chunk.view().depth == 16,
            forall|a: int, b: int, c: int|
                0 <= a < 16 && 0 <= b < 16 && 0 <= c < 16 ==> #[trigger] block_progress(
                    chunk.view(),
                    target,
                    a,
                    b,
                    c,
                    x as int,
                    0,
                    0,
                ),
        decreases 16 - x,
    {
        let mut y: usize = 0;
        while y < chunk.height()
            invariant
                x < 16,
                y <= 16,
                colors@.len() == 4096,
                target == block_chunk(colors@),
                chunk.view().wf(),
                chunk.view().values.len() == 4096 && chunk.view().colors.len() == 4096,
                chunk.view().width == 16 && chunk.view().height == 16 && chunk.view().depth == 16,
                forall|a: int, b: int, c: int|
                    0 <= a < 16 && 0 <= b < 16 && 0 <= c < 16 ==> #[trigger] block_progress(
                        chunk.view(),
                        target,
                        a,
                        b,
                        c,
                        x as int,
                        y as int,
                        0,
                    ),
            decreases 16 - y,
        {
            let mut z: usize = 0;
            while z < chunk.depth()
                invariant
                    x < 16,
                    y < 16,
                    z <= 16,
                    colors@.len() == 4096,
                    target == block_chunk(colors@),
                    chunk.view().wf(),
                    chunk.view().values.len() == 4096 && chunk.view().colors.len() == 4096,
                    chunk.view().width == 16 && chunk.view().height == 16 && chunk.view().depth
                        == 16,
                    forall|a: int, b: int, c: int|
                        0 <= a < 16 && 0 <= b < 16 && 0 <= c < 16 ==> #[trigger] block_progress(
                            chunk.view(),
                            target,
                            a,
                            b,
                            c,
                            x as int,
                            y as int,
                            z as int,
                        ),
                decreases 16 - z,
            {
                let color = colors[x + 16 * y + 256 * z];
                let ghost before = chunk.view();
                let ghost k0 = x + y * 16 + z * 256;
                assert(before.index(x as int, y as int, z as int) == k0) by (nonlinear_arith)
                    requires
                        before.width == 16,
                        before.height == 16,
                        k0 == x + y * 16 + z * 256,
                ;
                if color[3] != 0 {
                    chunk.set(x, y, z, 255);
                    chunk.set_color(x, y, z, color);
                }
                assert forall|a: int, b: int, c: int|
                    0 <= a < 16 && 0 <= b < 16 && 0 <= c < 16 implies #[trigger] block_progress(
                    chunk.view(),
                    target,
                    a,
                    b,
                    c,
                    x as int,
                    y as int,
                    z + 1,
                ) by {
                    assert(block_progress(before, target, a, b, c, x as int, y as int, z as int));
                    if a + b * 16 + c * 256 == k0 {
                        lemma_index_injective(16, 16, a, b, c, x as int, y as int, z as int);
                    }
                }
                z += 1;
            }
            assert forall|a: int, b: int, c: int|
                0 <= a < 16 && 0 <= b < 16 && 0 <= c < 16 implies #[trigger] block_progress(
                chunk.view(),
                target,
                a,
                b,
                c,
                x as int,
                y + 1,
                0,
            ) by {
                assert(block_progress(chunk.view(), target, a, b, c, x as int, y as int, 16));
            }
            y += 1;
        }
        assert forall|a: int, b: int, c: int|
            0 <= a < 16 && 0 <= b < 16 && 0 <= c < 16 implies #[trigger] block_progress(
            chunk.view(),
            target,
            a,
            b,
            c,
            x + 1,
            0,
            0,
        ) by {
            assert(block_progress(chunk.view(), target, a, b, c, x as int, 16, 0));
        }
        x += 1;
    }
    assert forall|k: int| 0 <= k < 4096 implies chunk.view().values[k] == target.values[k]
        && chunk.view().colors[k] == target.colors[k] by {
        lemma_block_position(k);
        let (a, b, c) = (k % 16, (k / 16) % 16, k / 256);
        assert(block_progress(chunk.view(), target, a, b, c, 16, 0, 0));
    }
    assert(chunk.view().values =~= target.values);
    assert(chunk.view().colors =~= target.colors);
    chunk
}


/// Loads Goxel scenes as colored voxel chunks, one per placed block.
pub struct Gox;

impl Gox {
    /// One chunk of 16 voxels on each side per placement, in order: the
    /// chunk of the placed block (see `block_chunk`). The chunk's position is
    /// the placement's coordinates.
    pub fn from_scene(scene: &GoxScene) -> (r: Vec<voxel::Chunk>)
        requires
            placements_named(scene@),
            forall|b: int| 0 <= b < scene@.blocks.len() ==> #[trigger] scene@.blocks[b].len() == 4096,
        ensures
            r@.len() == scene@.placements.len(),
            forall|i: int|
                0 <= i < r@.len() ==> #[trigger] r@[i].view() == block_chunk(
                    scene@.blocks[scene@.placements[i].block_index as int],
                ),
    {
        proof {
            lemma_scene_view(scene);
        }
        let mut result: Vec<voxel::Chunk> = Vec::new();
        let mut i: usize = 0;
        while i < scene.placements.len()
            invariant
                i <= scene.placements@.len(),
                placements_named(scene@),
                forall|b: int| 0 <= b < scene@.blocks.len() ==> #[trigger] scene@.blocks[b].len() == 4096,
                result@.len() == i,
                forall|k: int|
                    0 <= k < i ==> #[trigger] result@[k].view() == block_chunk(
                        scene@.blocks[scene@.placements[k].block_index as int],
                    ),
            decreases scene.placements@.len() - i,
        {
            proof {
                lemma_scene_view(scene);
            }
            let placement = scene.placements[i];
            let colors = &scene.blocks[placement.block_index];
            assert(colors@ == scene@.blocks[placement.block_index as int]);
            result.push(block_to_chunk(colors));
            i += 1;
        }
        result
    }

    /// Parses the bytes of a Goxel file and makes one chunk per placement
    /// of the scene they hold (see `from_scene`), returned with the
    /// placements, whose coordinates are the chunks' positions; `None` when
    /// the parser would fail on the bytes (see `gox_file_ok`) or a placement
    /// names a block that the file does not hold.
    pub fn from_bytes(bytes: Vec<u8>) -> (r: Option<(Vec<voxel::Chunk>, Vec<GoxPlacement>)>)
        ensures
            r is Some <==> gox_file_ok(bytes@) && placements_named(gox_scene_of(bytes@)),
            r matches Some((chunks, placements)) ==> {
                let sc = gox_scene_of(bytes@);
                &&& placements@ == sc.placements
                &&& chunks@.len() == sc.placements.len()
                &&& forall|i: int|
                    0 <= i < chunks@.len() ==> #[trigger] chunks@[i].view() == block_chunk(
                        sc.blocks[sc.placements[i].block_index as int],
                    )
            },
    {
        if !check_gox_file(&bytes) {
            return None;
        }
        let scene = parse_scene(bytes);
        proof {
            lemma_scene_view(&scene);
        }
        let mut i: usize = 0;
        while i < scene.placements.len()
            invariant
                scene@ == gox_scene_of(bytes@),
                forall|b: int| 0 <= b < scene@.blocks.len() ==> #[trigger] scene@.blocks[b].len() == 4096,
                i <= scene@.placements.len(),
                forall|k: int| 0 <= k < i ==> #[trigger] scene@.placements[k].block_index < scene@.blocks.len(),
            decreases scene@.placements.len() - i,
        {
            proof {
                lemma_scene_view(&scene);
            }
            if scene.placements[i].block_index >= scene.blocks.len() {
                assert(!placements_named(scene@));
                return None;
            }
            i += 1;
        }
        let chunks = Self::from_scene(&scene);
        Some((chunks, scene.placements))
    }
}


/// The color atlas of a palette keeps the blank texture's size: 48 by 48
/// texels, four bytes each.
proof fn lemma_palette_atlas_shape(palette: Seq<[u8; 4]>)
    requires
        palette.len() <= 256,
    ensures
        palette_atlas(palette).same_shape(blank(48, 48)),
    decreases palette.len(),
{
    if palette.len() > 0 {
        lemma_palette_atlas_shape(palette.drop_last());
        let i = (palette.len() - 1) as u8;
        lemma_blit_full_tile(
            palette_atlas(palette.drop_last()),
            tile_origin_x(i, 48, 1),
            tile_origin_y(i, 48, 48, 1),
            1,
            1,
            seq![palette.last()],
            0,
            0,
        );
    }
}

/// Each color of the palette fills its tile of the color atlas: the 3 by 3
/// texels of tile `i` (the tile and its padding), whose corner is
/// `(3 * (i % 16), 3 * (15 - i / 16))`, all hold color `i`.
#[verifier::spinoff_prover]
#[verifier::rlimit(40)]
pub proof fn lemma_palette_tiles(palette: Seq<[u8; 4]>, i: int, dx: int, dy: int)
    requires
        palette.len() <= 256,
        0 <= i < palette.len(),
        0 <= dx < 3,
        0 <= dy < 3,
    ensures
        palette_atlas(palette).pixel(3 * (i % 16) + dx, 3 * (15 - i / 16) + dy) == rgba(palette[i]),
    decreases palette.len(),
{
    let n = palette.len() - 1;
    let rest = palette.drop_last();
    let last = n as u8;
    let x = 3 * (i % 16) + dx;
    let y = 3 * (15 - i / 16) + dy;
    assert(0 <= i % 16 < 16 && 0 <= i / 16 < 16);
    lemma_palette_atlas_shape(rest);
    lemma_color_tile_origin(last);
    let xo = tile_origin_x(last, 48, 1);
    let yo = tile_origin_y(last, 48, 48, 1);
    lemma_blit_full_tile(palette_atlas(rest), xo, yo, 1, 1, seq![palette.last()], x, y);
    if i == n {
        assert(in_patch(x, y, xo, yo, 1, 1));
        assert(patch_source(x, y, xo, yo, 1) == 0);
    } else {
        lemma_palette_tiles(rest, i, dx, dy);
        assert(rest[i] == palette[i]);
        if in_patch(x, y, xo, yo, 1, 1) {
            assert(i % 16 == n % 16 && i / 16 == n / 16);
            assert(i == 16 * (i / 16) + i % 16 && n == 16 * (n / 16) + n % 16);
        }
    }
}

} // verus!
