//! RGBA textures and tiled texture atlases.
use vstd::prelude::*;

verus! {

/// Number of tile columns in an atlas.
pub const COLS: u32 = 16;

/// Number of tile rows in an atlas.
pub const ROWS: u32 = 16;

/// The mathematical content of a texture: its size and its RGBA bytes,
/// row after row, four bytes per pixel.
pub struct TextureView {
    pub width: u32,
    pub height: u32,
    pub data: Seq<u8>,
}

impl TextureView {
    /// The byte buffer holds exactly four bytes for every pixel.
    pub open spec fn wf(self) -> bool {
        self.data.len() == 4 * self.width * self.height
    }

    /// Well-formed, with the size of `other`.
    pub open spec fn same_shape(self, other: TextureView) -> bool {
        self.wf() && self.width == other.width && self.height == other.height
    }

    /// Offset of the first byte of pixel `(x, y)`.
    pub open spec fn offset(self, x: int, y: int) -> int {
        4 * x + 4 * (self.width * y)
    }

    /// The four bytes of pixel `(x, y)`.
    pub open spec fn pixel(self, x: int, y: int) -> Seq<u8> {
        self.data.subrange(self.offset(x, y), self.offset(x, y) + 4)
    }

    /// The texture with four bytes written from `index` on, when they fit.
    pub open spec fn put_at(self, index: int, px: [u8; 4]) -> TextureView {
        if 0 <= index && index + 4 <= self.data.len() {
            TextureView {
                data: self.data.update(index, px[0]).update(index + 1, px[1]).update(
                    index + 2,
                    px[2],
                ).update(index + 3, px[3]),
                ..self
            }
        } else {
            self
        }
    }

    /// The texture with pixel `(x, y)` set to `px` when it lies inside; unchanged otherwise.
    pub open spec fn put_pixel(self, x: int, y: int, px: [u8; 4]) -> TextureView {
        if 0 <= x < self.width && 0 <= y < self.height {
            self.put_at(self.offset(x, y), px)
        } else {
            self
        }
    }
}

/// A transparent black texture of the given size.
pub open spec fn blank(width: u32, height: u32) -> TextureView {
    TextureView { width, height, data: Seq::new((4 * width * height) as nat, |i: int| 0u8) }
}


/// Distinct pixels inside a texture start at offsets at least four bytes apart.
pub proof fn lemma_offsets_apart(w: int, x1: int, y1: int, x2: int, y2: int)
    requires
        0 <= x1 < w,
        0 <= x2 < w,
        0 <= y1,
        0 <= y2,
        x1 != x2 || y1 != y2,
    ensures
        (4 * x1 + 4 * (w * y1)) + 4 <= 4 * x2 + 4 * (w * y2)
            || (4 * x2 + 4 * (w * y2)) + 4 <= 4 * x1 + 4 * (w * y1),
{
    if y1 == y2 {
    } else if y1 < y2 {
        assert(w * y1 + w <= w * y2) by (nonlinear_arith)
            requires
                y1 < y2,
                0 <= w,
        ;
    } else {
        assert(w * y2 + w <= w * y1) by (nonlinear_arith)
            requires
                y2 < y1,
                0 <= w,
        ;
    }
}

/// A pixel inside a well-formed texture lies within its byte buffer.
pub proof fn lemma_offset_in_bounds(t: TextureView, x: int, y: int)
    requires
        t.wf(),
        0 <= x < t.width,
        0 <= y < t.height,
    ensures
        0 <= t.offset(x, y),
        t.offset(x, y) + 4 <= t.data.len(),
{
    let w = t.width as int;
    let h = t.height as int;
    assert(0 <= w * y) by (nonlinear_arith)
        requires
            0 <= w,
            0 <= y,
    ;
    assert(w * y + w <= w * h) by (nonlinear_arith)
        requires
            0 <= w,
            y < h,
    ;
    assert(4 * w * h == 4 * (w * h)) by (nonlinear_arith);
}

/// Setting one pixel changes that pixel and no other.
pub proof fn lemma_put_pixel(t: TextureView, x: int, y: int, px: [u8; 4], a: int, b: int)
    requires
        t.wf(),
        0 <= a < t.width,
        0 <= b < t.height,
    ensures
        t.put_pixel(x, y, px).wf(),
        t.put_pixel(x, y, px).width == t.width,
        t.put_pixel(x, y, px).height == t.height,
        t.put_pixel(x, y, px).pixel(a, b) == (if a == x && b == y {
            seq![px[0], px[1], px[2], px[3]]
        } else {
            t.pixel(a, b)
        }),
{
    lemma_offset_in_bounds(t, a, b);
    let r = t.put_pixel(x, y, px);
    if 0 <= x < t.width && 0 <= y < t.height {
        lemma_offset_in_bounds(t, x, y);
        if a == x && b == y {
            assert(r.pixel(a, b) =~= seq![px[0], px[1], px[2], px[3]]);
        } else {
            lemma_offsets_apart(t.width as int, a, b, x, y);
            assert(r.pixel(a, b) =~= t.pixel(a, b));
        }
    } else {
        assert(r == t);
    }
}

/// Base common denominator across all the 2d texture implementations used.
pub trait Texturify2d: Clone + core::fmt::Debug + Sized {
    /// The size and bytes of the texture.
    spec fn tex(&self) -> TextureView;

    /// A transparent black texture of `width` by `height` pixels.
    fn new(width: u32, height: u32) -> (r: Self)
        requires
            4 * width * height <= usize::MAX,
        ensures
            r.tex() == blank(width, height),
    ;

    /// The RGBA bytes, row after row.
    fn get_data(&self) -> (r: &Vec<u8>)
        ensures
            r@ == self.tex().data,
    ;

    /// The four bytes stored at `x + 4 + width * y + 4` when `(x, y)` lies inside
    /// the texture, `None` otherwise.
    fn get_pixel(&self, x: u32, y: u32) -> (r: Option<[u8; 4]>)
        requires
            self.tex().wf(),
            x < self.tex().width && y < self.tex().height ==> x + 4 + self.tex().width * y + 4 + 3
                < self.tex().data.len() && x + 4 + self.tex().width * y + 4 <= u32::MAX,
        ensures
            r == (if x < self.tex().width && y < self.tex().height {
                let i = x + 4 + self.tex().width * y + 4;
                Some(
                    [
                        self.tex().data[i],
                        self.tex().data[i + 1],
                        self.tex().data[i + 2],
                        self.tex().data[i + 3],
                    ],
                )
            } else {
                None
            }),
    ;

    /// Height in pixels.
    fn height(&self) -> (r: u32)
        ensures
            r == self.tex().height,
    ;

    /// Number of bytes.
    fn len(&self) -> (r: usize)
        ensures
            r == self.tex().data.len(),
    ;

    /// Writes pixel `(x, y)` when it lies inside the texture.
    fn set_pixel(&mut self, x: u32, y: u32, data: [u8; 4])
        requires
            old(self).tex().wf(),
            x < old(self).tex().width && y < old(self).tex().height ==> 4 * x + 4 * (old(
                self,
            ).tex().width * y) <= u32::MAX,
        ensures
            final(self).tex() == old(self).tex().put_pixel(x as int, y as int, data),
    ;

    /// Writes four bytes from `index` on when they fit in the buffer.
    fn set_pixel_at_index(&mut self, index: usize, data: [u8; 4])
        requires
            old(self).tex().data.len() >= 4,
        ensures
            final(self).tex() == old(self).tex().put_at(index as int, data),
    ;

    /// Width in pixels.
    fn width(&self) -> (r: u32)
        ensures
            r == self.tex().width,
    ;

    /// A clone has the same size and bytes as the texture it was cloned from.
    proof fn lemma_clone_keeps_tex(a: Self, b: Self)
        requires
            cloned(a, b),
        ensures
            b.tex() == a.tex(),
    ;
}

/// Provides a `Texturify2d` implementation based on RGBA values.
#[derive(Debug)]
pub struct Texture2d {
    width: u32,
    height: u32,
    data: Vec<u8>,
}

impl Clone for Texture2d {
    fn clone(&self) -> (r: Self)
        ensures
            r.tex() == self.tex(),
    {
        Texture2d { width: self.width, height: self.height, data: self.data.clone() }
    }
}

impl Texturify2d for Texture2d {
    closed spec fn tex(&self) -> TextureView {
        TextureView { width: self.width, height: self.height, data: self.data@ }
    }

    fn new(width: u32, height: u32) -> (r: Self) {
        assert((width as usize * height as usize) * 4 == 4 * width * height) by (nonlinear_arith);
        let n: usize = (width as usize * height as usize) * 4;
        let data: Vec<u8> = vec![0u8; n];
        let r = Texture2d { width, height, data };
        assert(r.tex().data =~= blank(width, height).data);
        r
    }

    fn get_data(&self) -> (r: &Vec<u8>) {
        &self.data
    }

    fn get_pixel(&self, x: u32, y: u32) -> (r: Option<[u8; 4]>) {
        if x < self.width && y < self.height {
            let index = (x + 4 + self.width * y + 4) as usize;
            assert(index + 3 < self.data.len());
            Some([self.data[index], self.data[index + 1], self.data[index + 2], self.data[index + 3]])
        } else {
            None
        }
    }

    fn height(&self) -> (r: u32) {
        self.height
    }

    fn len(&self) -> (r: usize) {
        self.data.len()
    }

    fn set_pixel(&mut self, x: u32, y: u32, data: [u8; 4]) {
        if x < self.width && y < self.height {
            proof {
                lemma_offset_in_bounds(self.tex(), x as int, y as int);
            }
            assert(self.width * y * 4 == 4 * (self.width * y)) by (nonlinear_arith);
            self.set_pixel_at_index((x * 4 + self.width * y * 4) as usize, data);
        }
    }

    fn set_pixel_at_index(&mut self, index: usize, data: [u8; 4]) {
        if index <= self.data.len() - 4 {
            self.data.set(index, data[0]);
            self.data.set(index + 1, data[1]);
            self.data.set(index + 2, data[2]);
            self.data.set(index + 3, data[3]);
        }
    }

    fn width(&self) -> (r: u32) {
        self.width
    }

    proof fn lemma_clone_keeps_tex(a: Self, b: Self) {
    }
}


/// Column and row of tile `index` in the 16 by 16 atlas grid.
pub fn index_to_xy(index: u8) -> (r: (u8, u8))
    ensures
        r.0 == index % 16,
        r.1 == index / 16,
        r.0 < 16,
        r.1 < 16,
        r.0 + 16 * r.1 == index,
{
    (index % (COLS as u8), index / (COLS as u8))
}

/// Column of tile `index` in the atlas grid.
pub open spec fn tile_column(index: u8) -> int {
    index as int % 16
}

/// Row of tile `index` in the atlas grid.
pub open spec fn tile_row(index: u8) -> int {
    index as int / 16
}

/// First texel column of tile `index`: the tile's column times the width of
/// one column (`width / 16`), plus the padding.
pub open spec fn tile_origin_x(index: u8, width: u32, pad: u32) -> int {
    if width == 0 {
        0
    } else {
        (tile_column(index) * width) / 16 + pad
    }
}

/// First texel row of tile `index`. Tile rows count upwards from the bottom of
/// the texture (row 0 is the last band of texels), and the padding is scaled
/// by `height / width`.
pub open spec fn tile_origin_y(index: u8, width: u32, height: u32, pad: u32) -> int {
    if width == 0 {
        0
    } else {
        ((15 - tile_row(index)) * height * width + 16 * pad * height) / (16 * width)
    }
}

/// The texture after the `i`-th pixel of a tile blit: the pixel goes to
/// `(xo + i % tile, yo + i / tile)`; with padding, pixels on the tile's edges
/// are also copied one texel outside the tile, corners included.
pub open spec fn blit_pixel(
    t: TextureView,
    xo: int,
    yo: int,
    tile: int,
    pad: int,
    i: int,
    px: [u8; 4],
) -> TextureView {
    let dx = i % tile;
    let dy = i / tile;
    let x = xo + dx;
    let y = yo + dy;
    let t1 = t.put_pixel(x, y, px);
    if pad > 0 {
        let t2 = if dx == 0 {
            t1.put_pixel(xo - 1, y, px)
        } else {
            t1
        };
        let t3 = if dy == 0 {
            t2.put_pixel(x, yo - 1, px)
        } else {
            t2
        };
        let t4 = if dx == 0 && dy == 0 {
            t3.put_pixel(xo - 1, yo - 1, px)
        } else {
            t3
        };
        let t5 = if dx == 0 && dy == tile - 1 {
            t4.put_pixel(xo - 1, yo + tile, px)
        } else {
            t4
        };
        let t6 = if dx == tile - 1 {
            t5.put_pixel(xo + tile, y, px)
        } else {
            t5
        };
        let t7 = if dy == tile - 1 {
            t6.put_pixel(x, yo + tile, px)
        } else {
            t6
        };
        let t8 = if dx == tile - 1 && dy == tile - 1 {
            t7.put_pixel(xo + tile, yo + tile, px)
        } else {
            t7
        };
        if dx == tile - 1 && dy == 0 {
            t8.put_pixel(xo + tile, yo - 1, px)
        } else {
            t8
        }
    } else {
        t1
    }
}

/// The texture after blitting `pixels` one after the other, row by row, into
/// the tile whose first texel is `(xo, yo)`.
pub open spec fn blit(
    t: TextureView,
    xo: int,
    yo: int,
    tile: int,
    pad: int,
    pixels: Seq<[u8; 4]>,
) -> TextureView
    decreases pixels.len(),
{
    if pixels.len() == 0 {
        t
    } else {
        blit_pixel(
            blit(t, xo, yo, tile, pad, pixels.drop_last()),
            xo,
            yo,
            tile,
            pad,
            pixels.len() - 1,
            pixels.last(),
        )
    }
}

/// The offset of any pixel inside a texture of at most `u32::MAX + 4` bytes fits in a `u32`.
pub proof fn lemma_offset_fits(w: u32, h: u32, x: u32, y: u32)
    requires
        4 * w * h <= u32::MAX + 4,
        x < w,
        y < h,
    ensures
        4 * x + 4 * (w * y) <= u32::MAX,
{
    assert(w * y + w <= w * h) by (nonlinear_arith)
        requires
            y < h,
    ;
    assert(4 * w * h == 4 * (w * h)) by (nonlinear_arith);
}

/// Whether writing texel `(x, y)` computes its byte offset within `u32`:
/// texels outside the texture are not written, so they always fit.
pub open spec fn texel_fits(t: TextureView, x: int, y: int) -> bool {
    0 <= x < t.width && 0 <= y < t.height ==> 4 * x + 4 * (t.width * y) <= u32::MAX
}

/// Whether every texel written by the `i`-th pixel of a blit into the tile at
/// `(xo, yo)` (see [`blit_pixel`]) has its byte offset within `u32`.
pub open spec fn blit_pixel_fits(t: TextureView, xo: int, yo: int, tile: int, pad: int, i: int) -> bool {
    let dx = i % tile;
    let dy = i / tile;
    let x = xo + dx;
    let y = yo + dy;
    &&& texel_fits(t, x, y)
    &&& pad > 0 ==> {
        &&& dx == 0 ==> texel_fits(t, xo - 1, y)
        &&& dy == 0 ==> texel_fits(t, x, yo - 1)
        &&& dx == 0 && dy == 0 ==> texel_fits(t, xo - 1, yo - 1)
        &&& dx == 0 && dy == tile - 1 ==> texel_fits(t, xo - 1, yo + tile)
        &&& dx == tile - 1 ==> texel_fits(t, xo + tile, y)
        &&& dy == tile - 1 ==> texel_fits(t, x, yo + tile)
        &&& dx == tile - 1 && dy == tile - 1 ==> texel_fits(t, xo + tile, yo + tile)
        &&& dx == tile - 1 && dy == 0 ==> texel_fits(t, xo + tile, yo - 1)
    }
}

/// In a texture of at most `u32::MAX + 4` bytes every texel fits, so every
/// blit pixel fits.
pub proof fn lemma_small_blit_fits(t: TextureView, xo: int, yo: int, tile: int, pad: int, i: int)
    requires
        4 * t.width * t.height <= u32::MAX + 4,
    ensures
        blit_pixel_fits(t, xo, yo, tile, pad, i),
{
    assert forall|x: int, y: int| #[trigger] texel_fits(t, x, y) by {
        if 0 <= x < t.width && 0 <= y < t.height {
            lemma_offset_fits(t.width, t.height, x as u32, y as u32);
        }
    }
}

/// Position of `v` inside a tile starting at `o` of `t` texels, clamped to the tile.
pub open spec fn clamp_tile(v: int, o: int, t: int) -> int {
    if v < o {
        0
    } else if v >= o + t {
        t - 1
    } else {
        v - o
    }
}

/// Whether a blit into the tile at `(xo, yo)` draws texel `(x, y)`: the tile
/// itself, and with padding also the ring of texels around it.
pub open spec fn in_patch(x: int, y: int, xo: int, yo: int, t: int, pad: int) -> bool {
    if pad > 0 {
        xo - 1 <= x <= xo + t && yo - 1 <= y <= yo + t
    } else {
        xo <= x < xo + t && yo <= y < yo + t
    }
}

/// Index of the pixel whose value a full-tile blit leaves on texel `(x, y)`
/// of its patch: the nearest pixel of the tile.
pub open spec fn patch_source(x: int, y: int, xo: int, yo: int, t: int) -> int {
    clamp_tile(x, xo, t) + clamp_tile(y, yo, t) * t
}

/// Texel `(a, b)` after the first `k` pixels of a full-tile blit: its nearest
/// tile pixel if that one is among the first `k` and the texel is in the
/// patch, its old value otherwise.
pub open spec fn tile_texel(
    t: TextureView,
    xo: int,
    yo: int,
    tile: int,
    pad: int,
    pixels: Seq<[u8; 4]>,
    k: int,
    a: int,
    b: int,
) -> Seq<u8> {
    let src = patch_source(a, b, xo, yo, tile);
    if in_patch(a, b, xo, yo, tile, pad) && src < k {
        rgba(pixels[src])
    } else {
        t.pixel(a, b)
    }
}

/// The four bytes of a pixel value.
pub open spec fn rgba(px: [u8; 4]) -> Seq<u8> {
    seq![px[0], px[1], px[2], px[3]]
}

/// Coordinates inside a tile are determined by their row-major index.
proof fn lemma_tile_coords_unique(cx: int, cy: int, dx: int, dy: int, t: int)
    requires
        0 <= cx < t,
        0 <= dx < t,
        0 <= cy,
        0 <= dy,
        cx + cy * t == dx + dy * t,
    ensures
        cx == dx,
        cy == dy,
{
    if cy < dy {
        assert(cy * t + t <= dy * t) by (nonlinear_arith)
            requires
                cy < dy,
                0 < t,
        ;
    } else if dy < cy {
        assert(dy * t + t <= cy * t) by (nonlinear_arith)
            requires
                dy < cy,
                0 < t,
        ;
    }
}

/// One pixel of a full-tile blit sets exactly the texels of the patch whose
/// nearest tile pixel it is.
proof fn lemma_blit_pixel_texel(
    t: TextureView,
    xo: int,
    yo: int,
    tile: int,
    pad: int,
    i: int,
    px: [u8; 4],
    a: int,
    b: int,
)
    requires
        t.wf(),
        tile > 0,
        0 <= i < tile * tile,
        0 <= a < t.width,
        0 <= b < t.height,
    ensures
        blit_pixel(t, xo, yo, tile, pad, i, px).same_shape(t),
        blit_pixel(t, xo, yo, tile, pad, i, px).pixel(a, b) == (if in_patch(a, b, xo, yo, tile, pad)
            && patch_source(a, b, xo, yo, tile) == i {
            rgba(px)
        } else {
            t.pixel(a, b)
        }),
{
    let dx = i % tile;
    let dy = i / tile;
    assert(i == dx + dy * tile && 0 <= dx < tile && 0 <= dy) by (nonlinear_arith)
        requires
            dx == i % tile,
            dy == i / tile,
            tile > 0,
            i >= 0,
    ;
    assert(dy < tile) by (nonlinear_arith)
        requires
            dy == i / tile,
            i < tile * tile,
            tile > 0,
            i >= 0,
    ;
    let x = xo + dx;
    let y = yo + dy;
    let t1 = t.put_pixel(x, y, px);
    lemma_put_pixel(t, x, y, px, a, b);
    let t2 = if dx == 0 { t1.put_pixel(xo - 1, y, px) } else { t1 };
    lemma_put_pixel(t1, xo - 1, y, px, a, b);
    let t3 = if dy == 0 { t2.put_pixel(x, yo - 1, px) } else { t2 };
    lemma_put_pixel(t2, x, yo - 1, px, a, b);
    let t4 = if dx == 0 && dy == 0 { t3.put_pixel(xo - 1, yo - 1, px) } else { t3 };
    lemma_put_pixel(t3, xo - 1, yo - 1, px, a, b);
    let t5 = if dx == 0 && dy == tile - 1 { t4.put_pixel(xo - 1, yo + tile, px) } else { t4 };
    lemma_put_pixel(t4, xo - 1, yo + tile, px, a, b);
    let t6 = if dx == tile - 1 { t5.put_pixel(xo + tile, y, px) } else { t5 };
    lemma_put_pixel(t5, xo + tile, y, px, a, b);
    let t7 = if dy == tile - 1 { t6.put_pixel(x, yo + tile, px) } else { t6 };
    lemma_put_pixel(t6, x, yo + tile, px, a, b);
    let t8 = if dx == tile - 1 && dy == tile - 1 {
        t7.put_pixel(xo + tile, yo + tile, px)
    } else {
        t7
    };
    lemma_put_pixel(t7, xo + tile, yo + tile, px, a, b);
    lemma_put_pixel(t8, xo + tile, yo - 1, px, a, b);
    let cx = clamp_tile(a, xo, tile);
    let cy = clamp_tile(b, yo, tile);
    if in_patch(a, b, xo, yo, tile, pad) && patch_source(a, b, xo, yo, tile) == i {
        lemma_tile_coords_unique(cx, cy, dx, dy, tile);
    }
    assert(seq![px[0], px[1], px[2], px[3]] == rgba(px));
}

/// A blit of a full tile (`tile * tile` pixels) leaves on every texel of the
/// tile's patch the value of its nearest tile pixel, and leaves every other
/// texel unchanged.
pub proof fn lemma_blit_full_tile(
    t: TextureView,
    xo: int,
    yo: int,
    tile: int,
    pad: int,
    pixels: Seq<[u8; 4]>,
    a: int,
    b: int,
)
    requires
        t.wf(),
        tile > 0,
        pixels.len() == tile * tile,
        0 <= a < t.width,
        0 <= b < t.height,
    ensures
        blit(t, xo, yo, tile, pad, pixels).same_shape(t),
        blit(t, xo, yo, tile, pad, pixels).pixel(a, b) == tile_texel(
            t,
            xo,
            yo,
            tile,
            pad,
            pixels,
            tile * tile,
            a,
            b,
        ),
{
    lemma_blit_leading(t, xo, yo, tile, pad, pixels, pixels.len() as int, a, b);
    assert(pixels.take(pixels.len() as int) =~= pixels);
    let cx = clamp_tile(a, xo, tile);
    let cy = clamp_tile(b, yo, tile);
    lemma_tile_index_bound(cx, cy, tile);
}

/// Filling a whole tile with one color: every texel of the patch (the tile,
/// and with padding the ring of texels around it) takes the color, and every
/// other texel is unchanged.
pub proof fn lemma_fill_tile(
    t: TextureView,
    xo: int,
    yo: int,
    tile: int,
    pad: int,
    color: [u8; 4],
    a: int,
    b: int,
)
    requires
        t.wf(),
        tile > 0,
        0 <= a < t.width,
        0 <= b < t.height,
    ensures
        blit(t, xo, yo, tile, pad, Seq::new((tile * tile) as nat, |i: int| color)).same_shape(t),
        blit(t, xo, yo, tile, pad, Seq::new((tile * tile) as nat, |i: int| color)).pixel(a, b) == (
        if in_patch(a, b, xo, yo, tile, pad) {
            rgba(color)
        } else {
            t.pixel(a, b)
        }),
{
    let pixels = Seq::new((tile * tile) as nat, |i: int| color);
    assert(tile * tile > 0) by (nonlinear_arith)
        requires
            tile > 0,
    ;
    lemma_blit_full_tile(t, xo, yo, tile, pad, pixels, a, b);
    let cx = clamp_tile(a, xo, tile);
    let cy = clamp_tile(b, yo, tile);
    lemma_tile_index_bound(cx, cy, tile);
}

proof fn lemma_tile_index_bound(cx: int, cy: int, tile: int)
    requires
        0 <= cx < tile,
        0 <= cy < tile,
    ensures
        0 <= cx + cy * tile < tile * tile,
{
    assert(cy * tile + tile <= tile * tile) by (nonlinear_arith)
        requires
            cy < tile,
            0 <= cy,
    ;
}

/// After the first `done` pixels of a full-tile blit, a texel of the patch holds
/// its nearest tile pixel if that pixel is among the first `done`; every other
/// texel is unchanged.
proof fn lemma_blit_leading(
    t: TextureView,
    xo: int,
    yo: int,
    tile: int,
    pad: int,
    pixels: Seq<[u8; 4]>,
    done: int,
    a: int,
    b: int,
)
    requires
        t.wf(),
        tile > 0,
        pixels.len() == tile * tile,
        0 <= done,
        done <= pixels.len(),
        0 <= a < t.width,
        0 <= b < t.height,
    ensures
        ({
            let r = blit(t, xo, yo, tile, pad, pixels.take(done));
            r.same_shape(t) && r.pixel(a, b) == tile_texel(t, xo, yo, tile, pad, pixels, done, a, b)
        }),
    decreases done,
{
    let cx = clamp_tile(a, xo, tile);
    let cy = clamp_tile(b, yo, tile);
    assert(0 <= cx + cy * tile) by (nonlinear_arith)
        requires
            0 <= cx,
            0 <= cy,
            0 <= tile,
    ;
    if done == 0 {
        assert(pixels.take(0) =~= Seq::<[u8; 4]>::empty());
    } else {
        lemma_blit_leading(t, xo, yo, tile, pad, pixels, done - 1, a, b);
        assert(pixels.take(done).drop_last() =~= pixels.take(done - 1));
        let prev = blit(t, xo, yo, tile, pad, pixels.take(done - 1));
        lemma_blit_pixel_texel(prev, xo, yo, tile, pad, done - 1, pixels[done - 1], a, b);
    }
}

/// A convenience component to work with tiled textures: 16 by 16 tiles of
/// `tile_size` texels, each surrounded by `pad_size` texels of padding.
#[derive(Debug)]
pub struct TextureAtlas2d<T> where T: Texturify2d {
    texture: T,
    tile_size: u32,
    pad_size: u32,
}

impl<T> Clone for TextureAtlas2d<T> where T: Texturify2d {
    fn clone(&self) -> (r: Self)
        ensures
            cloned(self.texture_value(), r.texture_value()),
            r.tile() == self.tile(),
            r.padding() == self.padding(),
    {
        TextureAtlas2d {
            texture: self.texture.clone(),
            tile_size: self.tile_size,
            pad_size: self.pad_size,
        }
    }
}

impl<T> TextureAtlas2d<T> where T: Texturify2d {
    /// The atlas texture's size and bytes.
    pub closed spec fn atlas_tex(&self) -> TextureView {
        self.texture.tex()
    }

    /// The texture value the atlas draws into.
    pub closed spec fn texture_value(&self) -> T {
        self.texture
    }

    /// The atlas texture is the size and bytes of the texture value.
    pub proof fn lemma_atlas_texture(&self)
        ensures
            self.atlas_tex() == self.texture_value().tex(),
    {
    }

    /// Tile size in texels.
    pub closed spec fn tile(&self) -> u32 {
        self.tile_size
    }

    /// Padding around each tile in texels.
    pub closed spec fn padding(&self) -> u32 {
        self.pad_size
    }

    /// First texel column of tile `index`.
    pub open spec fn origin_x(&self, index: u8) -> int {
        tile_origin_x(index, self.atlas_tex().width, self.padding())
    }

    /// First texel row of tile `index`.
    pub open spec fn origin_y(&self, index: u8) -> int {
        tile_origin_y(index, self.atlas_tex().width, self.atlas_tex().height, self.padding())
    }

    /// The atlas texture after blitting `pixels` into tile `index`.
    pub open spec fn blitted(&self, index: u8, pixels: Seq<[u8; 4]>) -> TextureView {
        blit(
            self.atlas_tex(),
            self.origin_x(index),
            self.origin_y(index),
            self.tile() as int,
            self.padding() as int,
            pixels,
        )
    }

    /// Blitting `n` pixels into tile `index` stays within `u32` texel coordinates.
    pub open spec fn blit_fits(&self, index: u8, n: int) -> bool {
        let t = self.tile() as int;
        let xo = self.origin_x(index);
        let yo = self.origin_y(index);
        n > 0 ==> {
            &&& t > 0
            &&& n <= u32::MAX + 1
            &&& xo + t - 1 <= u32::MAX
            &&& yo + (n - 1) / t <= u32::MAX
            &&& self.padding() > 0 ==> 1 <= xo && 1 <= yo && xo + t <= u32::MAX && yo + t
                <= u32::MAX
        }
    }

    /// Whether this atlas is what `new_with_padding(tile_size, padding)`
    /// builds: tiles of `tile_size` texels with `padding` texels of padding,
    /// on a blank texture of `16 * (tile_size + 2 * padding)` texels square.
    pub open spec fn built_with_padding(&self, tile_size: u32, padding: u32) -> bool {
        &&& self.atlas_tex() == blank(
            (16 * (tile_size + 2 * padding)) as u32,
            (16 * (tile_size + 2 * padding)) as u32,
        )
        &&& self.tile() == tile_size
        &&& self.padding() == padding
    }

    /// An atlas with tiles of `tile_size` texels and one texel of padding:
    /// the atlas that `new_with_padding(tile_size, 1)` builds.
    pub fn new(tile_size: u32) -> (r: Self)
        requires
            16 * (tile_size + 2) <= u32::MAX,
            4 * (16 * (tile_size + 2)) * (16 * (tile_size + 2)) <= usize::MAX,
        ensures
            r.built_with_padding(tile_size, 1),
    {
        Self::new_with_padding(tile_size, 1)
    }

    /// An atlas with tiles of `tile_size` texels and `padding` texels of padding
    /// on every side, drawn on a blank texture of `16 * (tile_size + 2 * padding)`
    /// texels square.
    pub fn new_with_padding(tile_size: u32, padding: u32) -> (r: Self)
        requires
            16 * (tile_size + 2 * padding) <= u32::MAX,
            4 * (16 * (tile_size + 2 * padding)) * (16 * (tile_size + 2 * padding)) <= usize::MAX,
        ensures
            r.built_with_padding(tile_size, padding),
    {
        let side: u32 = COLS * (tile_size + padding * 2);
        Self::with_texture_and_size(T::new(side, ROWS * (tile_size + padding * 2)), tile_size, padding)
    }

    /// An atlas over an existing texture: tiles are a sixteenth of its width, no padding.
    pub fn with_texture(texture: T) -> (r: Self)
        ensures
            r.texture_value() == texture,
            r.atlas_tex() == texture.tex(),
            r.tile() == texture.tex().width / 16,
            r.padding() == 0,
    {
        let tile_width: u32 = texture.width() / COLS;
        let tile_pad: u32 = 0;
        Self::with_texture_and_size(texture, tile_width, tile_pad)
    }

    /// An atlas over an existing texture with the given tile and padding sizes.
    pub fn with_texture_and_size(texture: T, tile_size: u32, pad_size: u32) -> (r: Self)
        ensures
            r.texture_value() == texture,
            r.atlas_tex() == texture.tex(),
            r.tile() == tile_size,
            r.padding() == pad_size,
    {
        Self { texture, tile_size, pad_size }
    }

    /// Tile size in texels.
    pub fn tile_size(&self) -> (r: u32)
        ensures
            r == self.tile(),
    {
        self.tile_size
    }

    /// Padding around each tile in texels.
    pub fn pad_size(&self) -> (r: u32)
        ensures
            r == self.padding(),
    {
        self.pad_size
    }

    /// Width of the atlas texture in texels.
    pub fn texture_width(&self) -> (r: u32)
        ensures
            r == self.atlas_tex().width,
    {
        self.texture.width()
    }

    /// First texel of tile `index`, for a tile whose blit stays within `u32` coordinates.
    fn tile_origin(&self, index: u8) -> (r: (u32, u32))
        requires
            self.origin_x(index) <= u32::MAX,
            self.origin_y(index) <= u32::MAX,
        ensures
            r.0 == self.origin_x(index),
            r.1 == self.origin_y(index),
    {
        let (col, row) = index_to_xy(index);
        let w = self.texture.width();
        let h = self.texture.height();
        if w == 0 {
            return (0, 0);
        }
        let x: u64 = (col as u64 * w as u64) / 16 + self.pad_size as u64;
        assert((15 - row as u128) * h as u128 * w as u128 <= 15 * u32::MAX * u32::MAX) by (nonlinear_arith)
            requires
                row < 16,
                h <= u32::MAX,
                w <= u32::MAX,
        ;
        assert(16 * self.pad_size as u128 * h as u128 <= 16 * u32::MAX * u32::MAX) by (nonlinear_arith)
            requires
                self.pad_size <= u32::MAX,
                h <= u32::MAX,
        ;
        assert((15 - row as u128) * h as u128 <= 15 * u32::MAX) by (nonlinear_arith)
            requires
                row < 16,
                h <= u32::MAX,
        ;
        let y: u128 = ((15 - row as u128) * h as u128 * w as u128 + 16 * self.pad_size as u128
            * h as u128) / (16 * w as u128);
        (x as u32, y as u32)
    }

    /// Draws `pixels`, row after row, into tile `index`; with padding, the
    /// pixels on the tile's edges are also copied into the padding around it.
    /// Every texel written must have a byte offset that fits in a `u32`, the
    /// type in which the texture computes it.
    pub fn set_at_index(&mut self, index: u8, pixels: Vec<[u8; 4]>)
        requires
            old(self).atlas_tex().wf(),
            old(self).blit_fits(index, pixels.len() as int),
            forall|i: int|
                0 <= i < pixels.len() ==> #[trigger] blit_pixel_fits(
                    old(self).atlas_tex(),
                    old(self).origin_x(index),
                    old(self).origin_y(index),
                    old(self).tile() as int,
                    old(self).padding() as int,
                    i,
                ),
        ensures
            final(self).atlas_tex() == old(self).blitted(index, pixels@),
            final(self).tile() == old(self).tile(),
            final(self).padding() == old(self).padding(),
    {
        let ghost t0 = self.atlas_tex();
        let n = pixels.len();
        if n == 0 {
            assert(pixels@ =~= Seq::<[u8; 4]>::empty());
            return;
        }
        let (x_o, y_o) = self.tile_origin(index);
        let tile_width = self.tile_size;
        let pad = self.pad_size;
        let ghost w = t0.width;
        let ghost h = t0.height;
        let mut i: usize = 0;
        while i < n
            invariant
                0 <= i <= n,
                n == pixels.len(),
                self.tile() == tile_width,
                self.padding() == pad,
                tile_width == old(self).tile(),
                pad == old(self).padding(),
                x_o == old(self).origin_x(index),
                y_o == old(self).origin_y(index),
                old(self).blit_fits(index, n as int),
                t0 == old(self).atlas_tex(),
                t0.wf(),
                forall|k: int|
                    0 <= k < n ==> #[trigger] blit_pixel_fits(
                        t0,
                        x_o as int,
                        y_o as int,
                        tile_width as int,
                        pad as int,
                        k,
                    ),
                w == t0.width,
                h == t0.height,
                self.atlas_tex() == blit(
                    t0,
                    x_o as int,
                    y_o as int,
                    tile_width as int,
                    pad as int,
                    pixels@.take(i as int),
                ),
                self.atlas_tex().wf(),
                self.atlas_tex().width == w,
                self.atlas_tex().height == h,
            decreases n - i,
        {
            let v = pixels[i];
            let iu = i as u32;
            let dx = iu % tile_width;
            let dy = iu / tile_width;
            assert(dy <= (n - 1) as int / tile_width as int) by (nonlinear_arith)
                requires
                    dy == iu as int / tile_width as int,
                    iu < n,
                    tile_width > 0,
            ;
            let x = x_o + dx;
            let y = y_o + dy;
            let ghost cur = self.atlas_tex();
            proof {
                assert(pixels@.take(i + 1).drop_last() =~= pixels@.take(i as int));
                assert(blit_pixel_fits(t0, x_o as int, y_o as int, tile_width as int, pad as int, i as int));
            }
            self.texture.set_pixel(x, y, v);
            if pad > 0 {
                if dx == 0 {
                    self.set_texel(x_o - 1, y, v);
                }
                if dy == 0 {
                    self.set_texel(x, y_o - 1, v);
                }
                if dx == 0 && dy == 0 {
                    self.set_texel(x_o - 1, y_o - 1, v);
                }
                if dx == 0 && dy == tile_width - 1 {
                    self.set_texel(x_o - 1, y_o + tile_width, v);
                }
                if dx == tile_width - 1 {
                    self.set_texel(x_o + tile_width, y, v);
                }
                if dy == tile_width - 1 {
                    self.set_texel(x, y_o + tile_width, v);
                }
                if dx == tile_width - 1 && dy == tile_width - 1 {
                    self.set_texel(x_o + tile_width, y_o + tile_width, v);
                }
                if dx == tile_width - 1 && dy == 0 {
                    self.set_texel(x_o + tile_width, y_o - 1, v);
                }
            }
            assert(self.atlas_tex() == blit_pixel(
                cur,
                x_o as int,
                y_o as int,
                tile_width as int,
                pad as int,
                i as int,
                v,
            ));
            i += 1;
        }
        assert(pixels@.take(n as int) =~= pixels@);
    }

    /// Sets one texel of the atlas texture.
    fn set_texel(&mut self, x: u32, y: u32, v: [u8; 4])
        requires
            old(self).atlas_tex().wf(),
            texel_fits(old(self).atlas_tex(), x as int, y as int),
        ensures
            final(self).atlas_tex() == old(self).atlas_tex().put_pixel(x as int, y as int, v),
            final(self).atlas_tex().wf(),
            final(self).tile() == old(self).tile(),
            final(self).padding() == old(self).padding(),
    {
        self.texture.set_pixel(x, y, v);
    }

    /// Fills tile `index` (and its padding) with one color.
    pub fn fill_at_index(&mut self, index: u8, color: [u8; 4])
        requires
            old(self).atlas_tex().wf(),
            old(self).tile() * old(self).tile() <= u32::MAX,
            old(self).blit_fits(index, old(self).tile() * old(self).tile()),
            forall|i: int|
                0 <= i < old(self).tile() * old(self).tile() ==> #[trigger] blit_pixel_fits(
                    old(self).atlas_tex(),
                    old(self).origin_x(index),
                    old(self).origin_y(index),
                    old(self).tile() as int,
                    old(self).padding() as int,
                    i,
                ),
        ensures
            final(self).atlas_tex() == old(self).blitted(
                index,
                Seq::new((old(self).tile() * old(self).tile()) as nat, |i: int| color),
            ),
            final(self).tile() == old(self).tile(),
            final(self).padding() == old(self).padding(),
    {
        let n: usize = (self.tile_size * self.tile_size) as usize;
        let mut pixels: Vec<[u8; 4]> = Vec::with_capacity(n);
        let mut k: usize = 0;
        while k < n
            invariant
                k <= n,
                pixels@ =~= Seq::new(k as nat, |i: int| color),
            decreases n - k,
        {
            pixels.push(color);
            k += 1;
        }
        self.set_at_index(index, pixels);
    }


    /// A copy of the atlas texture.
    pub fn get_texture(&self) -> (r: T)
        ensures
            cloned(self.texture_value(), r),
            r.tex() == self.atlas_tex(),
    {
        let r = self.texture.clone();
        proof {
            T::lemma_clone_keeps_tex(self.texture, r);
        }
        r
    }
}

} // verus!
