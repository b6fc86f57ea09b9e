//! Assembling a mosaic image from a source image and a tile palette.
//!
//! Every pixel of the source image is replaced by a whole tile: the output
//! buffer has `source_width * tile_width` by `source_height * tile_height`
//! pixels, and the tile copied at cell `(x, y)` is the palette tile whose
//! average color lies closest to the source pixel `(x, y)`.

use vstd::prelude::*;

verus! {

use crate::Error;
use crate::image_buf::{Image, Rgb};
use crate::squaring::Size;
use crate::tiles::{avg_rgb, PixelToTileMap, sq_dist, Tile, TileSet, uniform_dims};

/// The index of the entry of `pal` whose average color minimizes the squared
/// Euclidean distance to `px`, over the first `n` entries, lowest index on
/// ties. This is [`crate::tiles::closest_tile_idx`] phrased over raw pixel
/// buffers.
pub open spec fn closest_data_in_prefix(pal: Seq<Seq<Rgb>>, px: Rgb, n: int) -> int
    decreases n,
{
    if n <= 1 {
        0
    } else {
        let best = closest_data_in_prefix(pal, px, n - 1);
        if sq_dist(avg_rgb(pal[n - 1]), px) < sq_dist(avg_rgb(pal[best]), px) {
            n - 1
        } else {
            best
        }
    }
}

/// Index of the palette entry closest to `px`, lowest index on ties.
pub open spec fn closest_data_idx(pal: Seq<Seq<Rgb>>, px: Rgb) -> int {
    closest_data_in_prefix(pal, px, pal.len() as int)
}

/// The pixel buffers of a palette's tiles, in palette order.
pub open spec fn palette_data(tiles: Seq<Tile>) -> Seq<Seq<Rgb>> {
    tiles.map_values(|t: Tile| t.img.data@)
}

/// Over well-formed tiles the two closest-index definitions coincide: each
/// tile's stored average is its buffer's average.
pub proof fn lemma_closest_data_matches_tiles(tiles: Seq<Tile>, px: Rgb, n: int)
    requires
        n <= tiles.len(),
        forall|i: int| 0 <= i < tiles.len() ==> (#[trigger] tiles[i]).wf(),
    ensures
        closest_data_in_prefix(palette_data(tiles), px, n) == crate::tiles::closest_in_prefix(
            tiles,
            px,
            n,
        ),
    decreases n,
{
    if n > 1 {
        lemma_closest_data_matches_tiles(tiles, px, n - 1);
        crate::tiles::lemma_closest_in_prefix_props(tiles, px, n - 1);
        let best = crate::tiles::closest_in_prefix(tiles, px, n - 1);
        assert(palette_data(tiles)[n - 1] == tiles[n - 1].img.data@);
        assert(palette_data(tiles)[best] == tiles[best].img.data@);
        assert(avg_rgb(tiles[n - 1].img.data@) == tiles[n - 1].avg);
        assert(avg_rgb(tiles[best].img.data@) == tiles[best].avg);
    }
}

/// The color that the finished mosaic holds at `(x, y)`: the matching tile's
/// pixel at the cell-relative offset.
pub open spec fn mosaic_pixel(
    src: Seq<Rgb>,
    sw: int,
    pal: Seq<Seq<Rgb>>,
    tw: int,
    th: int,
    x: int,
    y: int,
) -> Rgb {
    let k = closest_data_idx(pal, src[(y / th) * sw + (x / tw)]);
    pal[k][(y % th) * tw + (x % tw)]
}

/// The whole pixel buffer of the mosaic built from source buffer `src` of
/// `sw` by `sh` pixels and palette `pal` of `tw` by `th` tiles, row-major.
pub open spec fn mosaic_data(
    src: Seq<Rgb>,
    sw: int,
    sh: int,
    pal: Seq<Seq<Rgb>>,
    tw: int,
    th: int,
) -> Seq<Rgb> {
    Seq::new(
        ((sw * tw) * (sh * th)) as nat,
        |i: int| mosaic_pixel(src, sw, pal, tw, th, i % (sw * tw), i / (sw * tw)),
    )
}

/// Law: the mosaic is a function of its inputs alone, so building twice from
/// identical inputs yields byte-identical output.
pub proof fn lemma_mosaic_deterministic(
    r1: Image,
    r2: Image,
    src: Seq<Rgb>,
    sw: int,
    sh: int,
    pal: Seq<Seq<Rgb>>,
    tw: int,
    th: int,
)
    requires
        r1.width == r2.width,
        r1.height == r2.height,
        r1.data@ == mosaic_data(src, sw, sh, pal, tw, th),
        r2.data@ == mosaic_data(src, sw, sh, pal, tw, th),
    ensures
        r1.data@ == r2.data@,
        forall|x: int, y: int| r1.pix(x, y) == r2.pix(x, y),
{
}

/// The output dimensions the builder owes: each source dimension scaled by
/// the tile dimension, with the pixel count capped so the buffer stays
/// allocatable.
pub open spec fn mosaic_fits(img: Image, tw: int, th: int) -> bool {
    &&& img.width as int * tw <= u32::MAX as int
    &&& img.height as int * th <= u32::MAX as int
    &&& (img.width as int * tw) * (img.height as int * th) <= u32::MAX as int
}

/// An initialized mosaic build: the source image, the validated palette, and
/// the allocated output buffer.
#[derive(Debug)]
pub struct Mosaic {
    /// The source image; each of its pixels becomes one tile of the output.
    pub img: Image,
    /// The validated tile palette.
    pub tiles: TileSet,
    /// The output buffer, `img.width * tile_width` by
    /// `img.height * tile_height` pixels.
    pub inner: Image,
}

impl Mosaic {
    /// The source image and the palette are well-formed and the output buffer
    /// has exactly one tile-sized cell per source pixel.
    pub open spec fn wf(self) -> bool {
        &&& self.img.wf()
        &&& self.tiles.wf()
        &&& self.inner.wf()
        &&& self.inner.width as int == self.img.width as int
            * self.tiles.spec_tile_size().width as int
        &&& self.inner.height as int == self.img.height as int
            * self.tiles.spec_tile_size().height as int
    }

    /// Validate the inputs and allocate the output buffer.
    ///
    /// Success is owed exactly when the tile list is non-empty, its images
    /// all have `tile_width` by `tile_height` pixels with at least one pixel,
    /// and the output stays within the allocatable cap.
    pub fn new(img: Image, tiles: Vec<Image>, tile_width: u32, tile_height: u32) -> (r: Result<
        Mosaic,
        Error,
    >)
        requires
            img.wf(),
            forall|i: int| 0 <= i < tiles@.len() ==> (#[trigger] tiles@[i]).wf(),
        ensures
            match r {
                Ok(m) => {
                    &&& m.wf()
                    &&& m.img == img
                    &&& m.tiles.tiles@.len() == tiles@.len()
                    &&& forall|i: int|
                        0 <= i < tiles@.len() ==> (#[trigger] m.tiles.tiles@[i]).img == tiles@[i]
                    &&& m.tiles.spec_tile_size() == (Size {
                        width: tile_width,
                        height: tile_height,
                    })
                    &&& tile_width >= 1 && tile_height >= 1
                    &&& mosaic_fits(img, tile_width as int, tile_height as int)
                    &&& forall|i: int|
                        0 <= i < m.inner.data@.len() ==> m.inner.data@[i]
                            == crate::image_buf::black()
                },
                Err(e) => match e {
                    Error::EmptyTileSet => tiles@.len() == 0,
                    Error::DimensionMismatch { expected, actual } => {
                        ||| {
                            &&& tiles@.len() >= 1
                            &&& !uniform_dims(tiles@)
                            &&& expected == (Size {
                                width: tiles@[0].width,
                                height: tiles@[0].height,
                            })
                            &&& exists|i: int|
                                0 <= i < tiles@.len() && (#[trigger] tiles@[i]).width
                                    == actual.width && tiles@[i].height == actual.height
                                    && !(tiles@[i].width == tiles@[0].width && tiles@[i].height
                                    == tiles@[0].height)
                        }
                        ||| {
                            &&& tiles@.len() >= 1
                            &&& uniform_dims(tiles@)
                            &&& tiles@[0].area() > 0
                            &&& !(tiles@[0].width == tile_width && tiles@[0].height
                                == tile_height)
                            &&& expected == (Size { width: tile_width, height: tile_height })
                            &&& actual == (Size {
                                width: tiles@[0].width,
                                height: tiles@[0].height,
                            })
                        }
                    },
                    Error::ZeroPixelImage => {
                        &&& tiles@.len() >= 1
                        &&& uniform_dims(tiles@)
                        &&& tiles@[0].area() == 0
                    },
                    Error::OutputTooLarge => {
                        &&& tiles@.len() >= 1
                        &&& uniform_dims(tiles@)
                        &&& tiles@[0].area() > 0
                        &&& tiles@[0].width == tile_width && tiles@[0].height == tile_height
                        &&& !mosaic_fits(img, tile_width as int, tile_height as int)
                    },
                    _ => false,
                },
            },
    {
        let tile_set = match TileSet::from_images(tiles) {
            Ok(ts) => ts,
            Err(e) => {
                return Err(e);
            },
        };
        if tile_set.tile_x_len() != tile_width || tile_set.tile_y_len() != tile_height {
            return Err(Error::DimensionMismatch {
                expected: Size { width: tile_width, height: tile_height },
                actual: Size { width: tile_set.tile_x_len(), height: tile_set.tile_y_len() },
            });
        }
        proof {
            lemma_u32_mul_fits_u64(img.width as int, tile_width as int);
            lemma_u32_mul_fits_u64(img.height as int, tile_height as int);
        }
        let mos_w: u64 = img.width as u64 * tile_width as u64;
        let mos_h: u64 = img.height as u64 * tile_height as u64;
        if mos_w > u32::MAX as u64 || mos_h > u32::MAX as u64 {
            return Err(Error::OutputTooLarge);
        }
        proof {
            lemma_u32_mul_fits_u64(mos_w as int, mos_h as int);
        }
        if mos_w * mos_h > u32::MAX as u64 {
            return Err(Error::OutputTooLarge);
        }
        proof {
            lemma_pos_area(tile_set.spec_tile_size().width as int, tile_set.spec_tile_size().height as int);
            assert(u32::MAX as int <= usize::MAX as int);
        }
        let inner = Image::new(mos_w as u32, mos_h as u32);
        Ok(Mosaic { img, tiles: tile_set, inner })
    }

    /// Assemble the mosaic: resolve every distinct source color once, then
    /// copy the matching tile into each cell of the output.
    pub fn into_image(self) -> (r: Image)
        requires
            self.wf(),
        ensures
            r.wf(),
            r.width == self.inner.width,
            r.height == self.inner.height,
            r.data@ == mosaic_data(
                self.img.data@,
                self.img.width as int,
                self.img.height as int,
                palette_data(self.tiles.tiles@),
                self.tiles.spec_tile_size().width as int,
                self.tiles.spec_tile_size().height as int,
            ),
    {
        let ghost tiles = self.tiles.tiles@;
        let ghost pal = palette_data(tiles);
        let ghost sw = self.img.width as int;
        let ghost sh = self.img.height as int;
        let ghost tw_ = self.tiles.spec_tile_size().width as int;
        let ghost th_ = self.tiles.spec_tile_size().height as int;
        let map: PixelToTileMap = self.tiles.map_to(&self.img);
        let tile_width = self.tiles.tile_x_len();
        let tile_height = self.tiles.tile_y_len();
        let img_x = self.img.width;
        let img_y = self.img.height;
        let mut mosaic = self.inner;
        let mut x: u32 = 0;
        let mut mos_x: u32 = 0;
        while x < img_x
            invariant
                self.wf(),
                tiles == self.tiles.tiles@,
                pal == palette_data(tiles),
                sw == self.img.width as int,
                sh == self.img.height as int,
                tw_ == self.tiles.spec_tile_size().width as int,
                th_ == self.tiles.spec_tile_size().height as int,
                tile_width as int == tw_,
                tile_height as int == th_,
                img_x as int == sw,
                img_y as int == sh,
                map.maps_image(tiles, self.img),
                x <= img_x,
                mos_x as int == x as int * tw_,
                mosaic.wf(),
                mosaic.width == self.inner.width,
                mosaic.height == self.inner.height,
                forall|mx: int, my: int|
                    0 <= mx < mosaic.width as int && 0 <= my < mosaic.height as int && mx < x
                        as int * tw_ ==> #[trigger] mosaic.pix(mx, my) == mosaic_pixel(
                        self.img.data@,
                        sw,
                        pal,
                        tw_,
                        th_,
                        mx,
                        my,
                    ),
            decreases img_x as int - x as int,
        {
            proof {
                lemma_cell_extent(sw, tw_, x as int);
            }
            let mut y: u32 = 0;
            let mut mos_y: u32 = 0;
            while y < img_y
                invariant
                    self.wf(),
                    tiles == self.tiles.tiles@,
                    pal == palette_data(tiles),
                    sw == self.img.width as int,
                    sh == self.img.height as int,
                    tw_ == self.tiles.spec_tile_size().width as int,
                    th_ == self.tiles.spec_tile_size().height as int,
                    tile_width as int == tw_,
                    tile_height as int == th_,
                    img_x as int == sw,
                    img_y as int == sh,
                    map.maps_image(tiles, self.img),
                    x < img_x,
                    y <= img_y,
                    mos_x as int == x as int * tw_,
                    mos_y as int == y as int * th_,
                    x as int * tw_ + tw_ <= mosaic.width as int,
                    mosaic.wf(),
                    mosaic.width == self.inner.width,
                    mosaic.height == self.inner.height,
                    forall|mx: int, my: int|
                        0 <= mx < mosaic.width as int && 0 <= my < mosaic.height as int && (mx < x
                            as int * tw_ || (mx < x as int * tw_ + tw_ && my < y as int * th_))
                            ==> #[trigger] mosaic.pix(mx, my) == mosaic_pixel(
                            self.img.data@,
                            sw,
                            pal,
                            tw_,
                            th_,
                            mx,
                            my,
                        ),
                decreases img_y as int - y as int,
            {
                proof {
                    lemma_cell_extent(sh, th_, y as int);
                    crate::image_buf::lemma_row_major_index_bound(sw, sh, x as int, y as int);
                }
                let px = self.img.get_pixel(x, y);
                let idx = match map.lookup(&px) {
                    Some(idx) => idx,
                    None => {
                        // The memo map covers every color of the image it was
                        // built from, so a miss cannot happen.
                        proof {
                            let j = y as int * sw + x as int;
                            assert(0 <= j < self.img.data@.len());
                            assert(self.img.data@[j] == px);
                            assert(map.map@.contains_key(crate::tiles::color_key(px)));
                            assert(false);
                        }
                        return mosaic;
                    },
                };
                let tile = &self.tiles.tiles[idx];
                mosaic.copy_into(&tile.img, mos_x, mos_y);
                proof {
                    let ghost pre = mosaic;
                    assert forall|mx: int, my: int|
                        0 <= mx < mosaic.width as int && 0 <= my < mosaic.height as int && (mx < x
                            as int * tw_ || (mx < x as int * tw_ + tw_ && my < y as int * th_
                            + th_)) implies #[trigger] mosaic.pix(mx, my) == mosaic_pixel(
                        self.img.data@,
                        sw,
                        pal,
                        tw_,
                        th_,
                        mx,
                        my,
                    ) by {
                        if x as int * tw_ <= mx < x as int * tw_ + tw_ && y as int * th_ <= my < y
                            as int * th_ + th_ {
                            let dx = mx - x as int * tw_;
                            let dy = my - y as int * th_;
                            lemma_div_in_cell(mx, tw_, x as int);
                            lemma_div_in_cell(my, th_, y as int);
                            assert(mosaic.pix(mx, my) == tiles[idx as int].img.pix(dx, dy));
                            lemma_closest_data_matches_tiles(tiles, px, tiles.len() as int);
                            assert(idx as int == closest_data_idx(pal, px));
                            crate::image_buf::lemma_row_major_index_bound(tw_, th_, dx, dy);
                        }
                    }
                }
                mos_y = mos_y + tile_height;
                y = y + 1;
            }
            proof {
                lemma_cell_extent(sw, tw_, x as int);
            }
            mos_x = mos_x + tile_width;
            x = x + 1;
        }
        proof {
            lemma_mosaic_cover(mosaic, self.img.data@, sw, sh, pal, tw_, th_);
        }
        mosaic
    }
}

/// The product of two values below the 32-bit cap fits in 64 bits.
proof fn lemma_u32_mul_fits_u64(a: int, b: int)
    by (nonlinear_arith)
    requires
        0 <= a <= u32::MAX as int,
        0 <= b <= u32::MAX as int,
    ensures
        0 <= a * b <= u64::MAX as int,
{
}

/// A rectangle with at least one pixel has positive extent on both axes.
pub proof fn lemma_pos_area(a: int, b: int)
    by (nonlinear_arith)
    requires
        0 <= a,
        0 <= b,
        0 < a * b,
    ensures
        1 <= a,
        1 <= b,
{
}

/// A full cell still fits inside the scaled extent.
proof fn lemma_cell_extent(w: int, tw: int, x: int)
    by (nonlinear_arith)
    requires
        0 <= x < w,
        1 <= tw,
    ensures
        0 <= x * tw,
        x * tw + tw <= w * tw,
        (x + 1) * tw == x * tw + tw,
{
}

/// A pixel offset inside cell `c` of a `tw`-wide grid divides back to `c`.
proof fn lemma_div_in_cell(mx: int, tw: int, c: int)
    requires
        1 <= tw,
        0 <= c,
        c * tw <= mx < c * tw + tw,
    ensures
        mx / tw == c,
        mx % tw == mx - c * tw,
{
    vstd::arithmetic::div_mod::lemma_fundamental_div_mod_converse(mx, tw, c, mx - c * tw);
}

/// An image whose every pixel matches [`mosaic_pixel`] holds exactly
/// [`mosaic_data`].
proof fn lemma_mosaic_cover(
    m: Image,
    src: Seq<Rgb>,
    sw: int,
    sh: int,
    pal: Seq<Seq<Rgb>>,
    tw: int,
    th: int,
)
    requires
        m.wf(),
        m.width as int == sw * tw,
        m.height as int == sh * th,
        forall|mx: int, my: int|
            0 <= mx < m.width as int && 0 <= my < m.height as int ==> #[trigger] m.pix(mx, my)
                == mosaic_pixel(src, sw, pal, tw, th, mx, my),
    ensures
        m.data@ == mosaic_data(src, sw, sh, pal, tw, th),
{
    let goal = mosaic_data(src, sw, sh, pal, tw, th);
    assert(m.data@.len() == goal.len());
    assert forall|i: int| 0 <= i < m.data@.len() implies m.data@[i] == goal[i] by {
        if m.width as int >= 1 {
            lemma_grid_decompose(i, m.width as int, m.height as int);
            assert(m.pix(i % m.width as int, i / m.width as int) == m.data@[i]);
        } else {
            vstd::arithmetic::mul::lemma_mul_basics(m.height as int);
            assert(false);
        }
    }
    assert(m.data@ =~= goal);
}

/// Decompose a row-major buffer index into its coordinates.
pub proof fn lemma_grid_decompose(i: int, w: int, h: int)
    by (nonlinear_arith)
    requires
        1 <= w,
        0 <= i < w * h,
    ensures
        0 <= i % w < w,
        0 <= i / w < h,
        (i / w) * w + (i % w) == i,
{
}

/// Build a single-level mosaic: each pixel of `source_image` is replaced by
/// the tile of the palette built from `tile_images` whose average color lies
/// closest to it.
pub fn build_mosaic(
    source_image: Image,
    tile_images: Vec<Image>,
    tile_width: u32,
    tile_height: u32,
) -> (r: Result<Image, Error>)
    requires
        source_image.wf(),
        forall|i: int| 0 <= i < tile_images@.len() ==> (#[trigger] tile_images@[i]).wf(),
    ensures
        match r {
            Ok(out) => {
                &&& out.wf()
                &&& out.width as int == source_image.width as int * tile_width as int
                &&& out.height as int == source_image.height as int * tile_height as int
                &&& out.data@ == mosaic_data(
                    source_image.data@,
                    source_image.width as int,
                    source_image.height as int,
                    tile_images@.map_values(|img: Image| img.data@),
                    tile_width as int,
                    tile_height as int,
                )
            },
            Err(e) => match e {
                Error::EmptyTileSet => tile_images@.len() == 0,
                Error::DimensionMismatch { expected, actual } => {
                    ||| {
                        &&& tile_images@.len() >= 1
                        &&& !uniform_dims(tile_images@)
                    }
                    ||| {
                        &&& tile_images@.len() >= 1
                        &&& uniform_dims(tile_images@)
                        &&& tile_images@[0].area() > 0
                        &&& !(tile_images@[0].width == tile_width && tile_images@[0].height
                            == tile_height)
                    }
                },
                Error::ZeroPixelImage => {
                    &&& tile_images@.len() >= 1
                    &&& uniform_dims(tile_images@)
                    &&& tile_images@[0].area() == 0
                },
                Error::OutputTooLarge => {
                    &&& tile_images@.len() >= 1
                    &&& uniform_dims(tile_images@)
                    &&& tile_images@[0].area() > 0
                    &&& tile_images@[0].width == tile_width && tile_images@[0].height
                        == tile_height
                    &&& !mosaic_fits(source_image, tile_width as int, tile_height as int)
                },
                _ => false,
            },
        },
{
    let m = match Mosaic::new(source_image, tile_images, tile_width, tile_height) {
        Ok(m) => m,
        Err(e) => {
            return Err(e);
        },
    };
    let ghost tiles = m.tiles.tiles@;
    let out = m.into_image();
    proof {
        assert(forall|i: int|
            0 <= i < tiles.len() ==> (#[trigger] tiles[i]).wf() && tiles[i].img
                == tile_images@[i]);
        assert(palette_data(tiles) =~= tile_images@.map_values(|img: Image| img.data@));
    }
    Ok(out)
}

} // verus!
