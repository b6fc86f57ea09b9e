//! The multi-level mosaic pyramid.
//!
//! One capture is mosaicked at a geometric sequence of tile-grid cell sizes:
//! at level `k` the cell is `capture / 2^(k+1)` per axis (integer division),
//! and the sequence stops at the first level whose cell area is no longer
//! above [`MIN_TILE_AREA`]. Each level downscales the capture to the grid
//! resolution by nearest-neighbor resampling, slices the full-resolution
//! capture into cell-sized sections to serve as that level's palette, builds
//! the mosaic, and crops it back to the capture's exact dimensions.

use vstd::prelude::*;

verus! {

use vstd::arithmetic::power2::pow2;

use crate::Error;
use crate::image_buf::{black, Image, Rgb};
use crate::mosaic::{Mosaic, mosaic_data, palette_data};
use crate::squaring::{ceil_div, Coord, SectionedImage, Size};

/// A level is generated only while its cell covers strictly more pixels than
/// this threshold.
pub const MIN_TILE_AREA: u64 = 4;

/// What `image::imageops::resize` with `FilterType::Nearest` returns for a
/// `sw` by `sh` row-major buffer resized to `dw` by `dh`: a function of the
/// source pixels and the four dimensions alone.
pub uninterp spec fn resize_nearest_of(src: Seq<Rgb>, sw: int, sh: int, dw: int, dh: int) -> Seq<
    Rgb,
>;

/// Relies on `image::imageops::resize` with `FilterType::Nearest`: the result
/// has exactly the requested dimensions, and is determined by the source
/// pixels and the dimensions alone.
#[verifier::external_body]
fn resize_nearest(img: &Image, dw: u32, dh: u32) -> (r: Image)
    requires
        img.wf(),
        1 <= dw,
        1 <= dh,
        3 * (img.width as int * img.height as int) <= usize::MAX as int,
        4 * (img.width as int * dh as int) <= usize::MAX as int,
        3 * (dw as int * dh as int) <= usize::MAX as int,
    ensures
        r.wf(),
        r.width == dw,
        r.height == dh,
        r.data@ == resize_nearest_of(
            img.data@,
            img.width as int,
            img.height as int,
            dw as int,
            dh as int,
        ),
{
    let raw: Vec<u8> = img.data.iter().flat_map(|p| [p.r, p.g, p.b]).collect();
    let buf = image::RgbImage::from_raw(img.width, img.height, raw).unwrap();
    let out = image::imageops::resize(&buf, dw, dh, image::imageops::FilterType::Nearest);
    let data: Vec<Rgb> = out.pixels().map(|p| Rgb { r: p.0[0], g: p.0[1], b: p.0[2] }).collect();
    Image { width: dw, height: dh, data }
}

/// The cell width at level `k`: the capture width over `2^(k+1)`.
pub open spec fn spec_cell_w(w: int, k: int) -> int {
    w / pow2((k + 1) as nat) as int
}

/// The cell height at level `k`: the capture height over `2^(k+1)`.
pub open spec fn spec_cell_h(h: int, k: int) -> int {
    h / pow2((k + 1) as nat) as int
}

/// The cell size of level `k`, or `None` once the cell area has fallen to
/// [`MIN_TILE_AREA`] or below.
pub open spec fn spec_get_tile_size(w: int, h: int, k: int) -> Option<Size> {
    let cw = spec_cell_w(w, k);
    let ch = spec_cell_h(h, k);
    if cw * ch > MIN_TILE_AREA as int {
        Some(Size { width: cw as u32, height: ch as u32 })
    } else {
        None
    }
}

/// The first level index at or after `k` whose cell size is `None`. The
/// explicit stop at 31 only bounds the recursion: for any capture that fits
/// the 32-bit dimensions, level 31's cell is empty anyway.
pub open spec fn spec_level_count_from(w: int, h: int, k: int) -> int
    decreases 32 - k,
    when k <= 31
{
    if k >= 31 || spec_get_tile_size(w, h, k) is None {
        k
    } else {
        spec_level_count_from(w, h, k + 1)
    }
}

/// How many levels the pyramid of a `w` by `h` capture has.
pub open spec fn spec_level_count(w: int, h: int) -> int {
    spec_level_count_from(w, h, 0)
}

/// The buffers and dimensions of one level stay within allocatable bounds.
pub open spec fn level_fits(cap: Image, size: Size) -> bool {
    let w = cap.width as int;
    let h = cap.height as int;
    let dw = ceil_div(w, size.width as int);
    let dh = ceil_div(h, size.height as int);
    &&& 3 * (w * h) <= usize::MAX as int
    &&& 4 * (w * dh) <= usize::MAX as int
    &&& 3 * (dw * dh) <= usize::MAX as int
    &&& size.width as int * size.height as int <= usize::MAX as int
    &&& dw * size.width as int <= u32::MAX as int
    &&& dh * size.height as int <= u32::MAX as int
    &&& (dw * size.width as int) * (dh * size.height as int) <= u32::MAX as int
}

/// One section of the capture, as a raw cell-sized buffer: the capture pixels
/// of cell `(cx, cy)` where the cell overlaps the capture, the default fill
/// beyond its trailing edge.
pub open spec fn section_data(
    tex: Seq<Rgb>,
    w: int,
    h: int,
    sw: int,
    sh: int,
    cx: int,
    cy: int,
) -> Seq<Rgb> {
    Seq::new(
        (sw * sh) as nat,
        |i: int|
            {
                let sx = cx * sw + i % sw;
                let sy = cy * sh + i / sw;
                if sx < w && sy < h {
                    tex[sy * w + sx]
                } else {
                    black()
                }
            },
    )
}

/// The palette of one level: every section of the capture, row-major.
pub open spec fn level_palette(tex: Seq<Rgb>, w: int, h: int, sw: int, sh: int) -> Seq<Seq<Rgb>> {
    let cx = ceil_div(w, sw);
    let cy = ceil_div(h, sh);
    Seq::new((cx * cy) as nat, |k: int| section_data(tex, w, h, sw, sh, k % cx, k / cx))
}

/// The top-left `w` by `h` rectangle of a `big_w`-wide row-major buffer.
pub open spec fn crop_data(data: Seq<Rgb>, big_w: int, w: int, h: int) -> Seq<Rgb> {
    Seq::new((w * h) as nat, |i: int| data[(i / w) * big_w + (i % w)])
}

/// The pixel buffer of one finished level: the capture downscaled to the
/// grid resolution, mosaicked against the capture's own sections, cropped
/// back to the capture's exact dimensions.
pub open spec fn spec_mosaify(cap: Seq<Rgb>, w: int, h: int, cw: int, ch: int) -> Seq<Rgb> {
    let dw = ceil_div(w, cw);
    let dh = ceil_div(h, ch);
    let small = resize_nearest_of(cap, w, h, dw, dh);
    let pal = level_palette(cap, w, h, cw, ch);
    crop_data(mosaic_data(small, dw, dh, pal, cw, ch), dw * cw, w, h)
}

/// The tile-grid cell size for `source` at level `level`, or `None` once the
/// cell area is no longer above [`MIN_TILE_AREA`].
pub fn get_tile_size(source: &Image, level: u32) -> (r: Option<Size>)
    ensures
        r == spec_get_tile_size(source.width as int, source.height as int, level as int),
        r is Some ==> 1 <= r.unwrap().width <= source.width && 1 <= r.unwrap().height
            <= source.height,
{
    if level >= 31 {
        proof {
            lemma_cell_empty_beyond_31(source.width as int, source.height as int, level as int);
        }
        return None;
    }
    proof {
        vstd::arithmetic::power2::lemma2_to64();
    }
    let mut tc: u64 = 1;
    let mut i: u32 = 0;
    while i < level + 1
        invariant
            level < 31,
            i <= level + 1,
            tc == pow2(i as nat),
            tc <= 0x1_0000_0000u64,
        decreases level + 1 - i,
    {
        proof {
            vstd::arithmetic::power2::lemma_pow2_unfold((i + 1) as nat);
            vstd::arithmetic::power2::lemma_pow2_strictly_increases((i + 1) as nat, 32);
            vstd::arithmetic::power2::lemma2_to64();
        }
        tc = tc * 2;
        i = i + 1;
    }
    proof {
        vstd::arithmetic::power2::lemma_pow2_pos((level + 1) as nat);
        lemma_div_le_self(source.width as int, pow2((level + 1) as nat) as int);
        lemma_div_le_self(source.height as int, pow2((level + 1) as nat) as int);
    }
    let cw: u64 = source.width as u64 / tc;
    let ch: u64 = source.height as u64 / tc;
    proof {
        lemma_mul_bound_u64(cw as int, ch as int);
    }
    if cw * ch > MIN_TILE_AREA {
        proof {
            crate::mosaic::lemma_pos_area(cw as int, ch as int);
        }
        Some(Size { width: cw as u32, height: ch as u32 })
    } else {
        None
    }
}

/// For `e >= 32`, a 32-bit extent divided by `2^e` is zero, so the level's
/// cell is empty.
proof fn lemma_cell_empty_beyond_31(w: int, h: int, k: int)
    requires
        0 <= w <= u32::MAX,
        0 <= h <= u32::MAX,
        k >= 31,
    ensures
        spec_get_tile_size(w, h, k) is None,
{
    let e = (k + 1) as nat;
    vstd::arithmetic::power2::lemma2_to64();
    if e > 32 {
        vstd::arithmetic::power2::lemma_pow2_strictly_increases(32, e);
    }
    assert(pow2(e) >= 0x1_0000_0000);
    vstd::arithmetic::div_mod::lemma_basic_div(w, pow2(e) as int);
    vstd::arithmetic::mul::lemma_mul_basics(spec_cell_h(h, k));
}

/// Integer division by a positive divisor never increases a non-negative
/// value.
proof fn lemma_div_le_self(x: int, d: int)
    by (nonlinear_arith)
    requires
        0 <= x,
        1 <= d,
    ensures
        0 <= x / d <= x,
{
}

/// A product of two 32-bit-sized factors fits in 64 bits.
proof fn lemma_mul_bound_u64(a: int, b: int)
    by (nonlinear_arith)
    requires
        0 <= a <= u32::MAX as int,
        0 <= b <= u32::MAX as int,
    ensures
        0 <= a * b <= u64::MAX as int,
{
}


/// Build one pyramid level: downscale the capture to the grid resolution,
/// slice the full-resolution capture into cell-sized sections as the
/// palette, assemble the mosaic, and crop it to the capture's dimensions.
pub fn mosaify(source: &Image, size: Size) -> (r: Result<Image, Error>)
    requires
        source.wf(),
        1 <= source.width,
        1 <= source.height,
        1 <= size.width,
        1 <= size.height,
    ensures
        match r {
            Ok(out) => {
                &&& level_fits(*source, size)
                &&& out.wf()
                &&& out.width == source.width
                &&& out.height == source.height
                &&& out.data@ == spec_mosaify(
                    source.data@,
                    source.width as int,
                    source.height as int,
                    size.width as int,
                    size.height as int,
                )
            },
            Err(e) => e == Error::OutputTooLarge && !level_fits(*source, size),
        },
{
    let ghost w_ = source.width as int;
    let ghost h_ = source.height as int;
    let ghost sw_ = size.width as int;
    let ghost sh_ = size.height as int;
    let w = source.width;
    let h = source.height;
    let sec = SectionedImage { texture: source, section_size: size };
    let count = sec.section_count();
    let dw = count.x;
    let dh = count.y;
    proof {
        crate::squaring::lemma_ceil_div_bounds(w_, sw_);
        crate::squaring::lemma_ceil_div_bounds(h_, sh_);
        lemma_mul_bound_u64(w_, h_);
        lemma_mul_bound_u64(w_, dh as int);
        lemma_mul_bound_u64(dw as int, dh as int);
        lemma_mul_bound_u64(sw_, sh_);
    }
    let umax: u128 = usize::MAX as u128;
    let area_wh: u128 = (w as u128) * (h as u128);
    if 3 * area_wh > umax {
        return Err(Error::OutputTooLarge);
    }
    let area_wdh: u128 = (w as u128) * (dh as u128);
    if 4 * area_wdh > umax {
        return Err(Error::OutputTooLarge);
    }
    let area_grid: u128 = (dw as u128) * (dh as u128);
    if 3 * area_grid > umax {
        return Err(Error::OutputTooLarge);
    }
    if (size.width as u128) * (size.height as u128) > umax {
        return Err(Error::OutputTooLarge);
    }
    let mos_w: u64 = (dw as u64) * (size.width as u64);
    let mos_h: u64 = (dh as u64) * (size.height as u64);
    if mos_w > u32::MAX as u64 || mos_h > u32::MAX as u64 {
        return Err(Error::OutputTooLarge);
    }
    proof {
        lemma_mul_bound_u64(mos_w as int, mos_h as int);
    }
    if mos_w * mos_h > u32::MAX as u64 {
        return Err(Error::OutputTooLarge);
    }
    let coords = sec.section_coords();
    let mut tiles: Vec<Image> = Vec::new();
    let mut k: usize = 0;
    while k < coords.len()
        invariant
            source.wf(),
            sec == (SectionedImage { texture: source, section_size: size }),
            sec.wf(),
            w_ == source.width as int,
            h_ == source.height as int,
            sw_ == size.width as int,
            sh_ == size.height as int,
            1 <= sw_,
            1 <= sh_,
            dw as int == ceil_div(w_, sw_),
            dh as int == ceil_div(h_, sh_),
            count == (Coord { x: dw, y: dh }),
            count == sec.spec_section_count(),
            sw_ * sh_ <= usize::MAX as int,
            coords@.len() == dw as int * dh as int,
            forall|j: int|
                0 <= j < coords@.len() ==> coords@[j] == (Coord {
                    x: (j % dw as int) as u32,
                    y: (j / dw as int) as u32,
                }),
            k <= coords@.len(),
            tiles@.len() == k,
            forall|j: int|
                0 <= j < k ==> {
                    &&& (#[trigger] tiles@[j]).wf()
                    &&& tiles@[j].width == size.width
                    &&& tiles@[j].height == size.height
                    &&& tiles@[j].data@ == section_data(
                        source.data@,
                        w_,
                        h_,
                        sw_,
                        sh_,
                        j % dw as int,
                        j / dw as int,
                    )
                },
        decreases coords@.len() - k,
    {
        proof {
            if dw as int >= 1 {
                crate::mosaic::lemma_grid_decompose(k as int, dw as int, dh as int);
            } else {
                vstd::arithmetic::mul::lemma_mul_basics(dh as int);
                assert(false);
            }
        }
        let c = coords[k];
        let t = sec.get_section(c);
        proof {
            lemma_section_image_data(t, sec, c);
        }
        tiles.push(t);
        k = k + 1;
    }
    proof {
        crate::squaring::lemma_ceil_div_bounds(w_, sw_);
        crate::squaring::lemma_ceil_div_bounds(h_, sh_);
        lemma_pos_grid(dw as int, dh as int);
    }
    let small = resize_nearest(source, dw, dh);
    let ghost small_data = small.data@;
    let m = match Mosaic::new(small, tiles, size.width, size.height) {
        Ok(m) => m,
        Err(e) => {
            // A palette of uniformly cell-sized, non-empty sections within
            // the checked bounds cannot be rejected.
            proof {
                assert(crate::tiles::uniform_dims(tiles@));
                assert(tiles@.len() >= 1);
                assert(tiles@[0].area() == sw_ * sh_);
                lemma_pos_grid(sw_, sh_);
                assert(false);
            }
            return Err(Error::OutputTooLarge);
        },
    };
    let big = m.into_image();
    proof {
        assert(palette_data(m.tiles.tiles@) =~= level_palette(source.data@, w_, h_, sw_, sh_));
        assert(big.data@ == mosaic_data(
            resize_nearest_of(source.data@, w_, h_, dw as int, dh as int),
            dw as int,
            dh as int,
            level_palette(source.data@, w_, h_, sw_, sh_),
            sw_,
            sh_,
        ));
    }
    let out = big.crop_top_left(w, h);
    proof {
        lemma_crop_image_data(out, big, w_, h_);
    }
    Ok(out)
}

/// A grid with positive extent on both axes has at least one cell.
proof fn lemma_pos_grid(a: int, b: int)
    by (nonlinear_arith)
    requires
        1 <= a,
        1 <= b,
    ensures
        1 <= a * b,
{
}

/// An image whose pixels match one section of `sec` holds exactly that
/// section's raw buffer.
proof fn lemma_section_image_data(t: Image, sec: SectionedImage<'_>, c: Coord)
    requires
        sec.wf(),
        t.wf(),
        t.width == sec.section_size.width,
        t.height == sec.section_size.height,
        forall|dx: int, dy: int|
            0 <= dx < t.width as int && 0 <= dy < t.height as int ==> #[trigger] t.pix(dx, dy)
                == sec.section_pixel(c, dx, dy),
    ensures
        t.data@ == section_data(
            sec.texture.data@,
            sec.texture.width as int,
            sec.texture.height as int,
            sec.section_size.width as int,
            sec.section_size.height as int,
            c.x as int,
            c.y as int,
        ),
{
    let goal = section_data(
        sec.texture.data@,
        sec.texture.width as int,
        sec.texture.height as int,
        sec.section_size.width as int,
        sec.section_size.height as int,
        c.x as int,
        c.y as int,
    );
    assert(t.data@.len() == goal.len());
    assert forall|i: int| 0 <= i < t.data@.len() implies t.data@[i] == goal[i] by {
        crate::mosaic::lemma_grid_decompose(i, t.width as int, t.height as int);
        assert(t.pix(i % t.width as int, i / t.width as int) == t.data@[i]);
    }
    assert(t.data@ =~= goal);
}

/// An image whose pixels match the top-left rectangle of `big` holds exactly
/// the cropped buffer.
proof fn lemma_crop_image_data(out: Image, big: Image, w: int, h: int)
    requires
        big.wf(),
        out.wf(),
        out.width as int == w,
        out.height as int == h,
        1 <= w <= big.width,
        h <= big.height,
        forall|x: int, y: int|
            0 <= x < w && 0 <= y < h ==> #[trigger] out.pix(x, y) == big.pix(x, y),
    ensures
        out.data@ == crop_data(big.data@, big.width as int, w, h),
{
    let goal = crop_data(big.data@, big.width as int, w, h);
    assert(out.data@.len() == goal.len());
    assert forall|i: int| 0 <= i < out.data@.len() implies out.data@[i] == goal[i] by {
        crate::mosaic::lemma_grid_decompose(i, w, h);
        assert(out.pix(i % w, i / w) == out.data@[i]);
        assert(big.pix(i % w, i / w) == big.data@[(i / w) * big.width as int + (i % w)]);
    }
    assert(out.data@ =~= goal);
}


/// Level-count bookkeeping: the first-`None` search stays between its start
/// and the hard bound.
proof fn lemma_count_from_range(w: int, h: int, k: int)
    requires
        0 <= k <= 31,
    ensures
        k <= spec_level_count_from(w, h, k) <= 31,
    decreases 32 - k,
{
    if !(k >= 31 || spec_get_tile_size(w, h, k) is None) {
        lemma_count_from_range(w, h, k + 1);
    }
}

/// When levels `0..n` exist and level `n` does not, the pyramid has exactly
/// `n` levels.
proof fn lemma_count_is_first_none(w: int, h: int, k: int, n: int)
    requires
        0 <= k <= n <= 31,
        forall|j: int| k <= j < n ==> spec_get_tile_size(w, h, j) is Some,
        spec_get_tile_size(w, h, n) is None,
    ensures
        spec_level_count_from(w, h, k) == n,
    decreases n - k,
{
    if k < n {
        lemma_count_is_first_none(w, h, k + 1, n);
    }
}

/// Law: growing a capture on both axes never loses pyramid levels. The count
/// is not a function of the area alone: captures of equal area but different
/// shape can have different counts, so the law is stated over per-axis
/// dominance, which is how a capture's area grows under scaling.
pub proof fn lemma_level_count_monotone(w1: int, h1: int, w2: int, h2: int)
    requires
        0 <= w1 <= w2,
        0 <= h1 <= h2,
    ensures
        spec_level_count(w1, h1) <= spec_level_count(w2, h2),
{
    lemma_count_from_monotone(w1, h1, w2, h2, 0);
}

/// The first-`None` search of the smaller capture never passes the larger's.
proof fn lemma_count_from_monotone(w1: int, h1: int, w2: int, h2: int, k: int)
    requires
        0 <= w1 <= w2,
        0 <= h1 <= h2,
        0 <= k <= 31,
    ensures
        spec_level_count_from(w1, h1, k) <= spec_level_count_from(w2, h2, k),
    decreases 32 - k,
{
    lemma_count_from_range(w1, h1, k);
    lemma_count_from_range(w2, h2, k);
    if !(k >= 31 || spec_get_tile_size(w1, h1, k) is None) {
        let p = pow2((k + 1) as nat) as int;
        vstd::arithmetic::power2::lemma_pow2_pos((k + 1) as nat);
        lemma_div_mono_num(w1, w2, p);
        lemma_div_mono_num(h1, h2, p);
        lemma_div_le_self(w1, p);
        lemma_div_le_self(h1, p);
        lemma_mul_mono_both(spec_cell_w(w1, k), spec_cell_w(w2, k), spec_cell_h(h1, k), spec_cell_h(h2, k));
        assert(spec_get_tile_size(w2, h2, k) is Some);
        lemma_count_from_monotone(w1, h1, w2, h2, k + 1);
    }
}

/// Integer division preserves order of the numerators.
proof fn lemma_div_mono_num(a: int, b: int, d: int)
    by (nonlinear_arith)
    requires
        0 <= a <= b,
        1 <= d,
    ensures
        0 <= a / d <= b / d,
{
}

/// Multiplication preserves per-factor order over the non-negatives.
proof fn lemma_mul_mono_both(a1: int, a2: int, b1: int, b2: int)
    by (nonlinear_arith)
    requires
        0 <= a1 <= a2,
        0 <= b1 <= b2,
    ensures
        a1 * b1 <= a2 * b2,
{
}

/// Build the whole pyramid: one mosaic of `capture` per level, finest grid
/// (smallest cells) first and the coarsest level (largest cells) last, every
/// level cropped to the capture's exact dimensions.
pub fn build_pyramid(capture: &Image) -> (r: Result<Vec<Image>, Error>)
    requires
        capture.wf(),
    ensures
        match r {
            Ok(levels) => {
                &&& 1 <= spec_level_count(capture.width as int, capture.height as int)
                &&& levels@.len() == spec_level_count(
                    capture.width as int,
                    capture.height as int,
                )
                &&& forall|i: int|
                    0 <= i < levels@.len() ==> {
                        let s = spec_get_tile_size(
                            capture.width as int,
                            capture.height as int,
                            levels@.len() - 1 - i,
                        ).unwrap();
                        &&& (#[trigger] levels@[i]).wf()
                        &&& levels@[i].width == capture.width
                        &&& levels@[i].height == capture.height
                        &&& levels@[i].data@ == spec_mosaify(
                            capture.data@,
                            capture.width as int,
                            capture.height as int,
                            s.width as int,
                            s.height as int,
                        )
                    }
            },
            Err(e) => match e {
                Error::CaptureTooSmall => spec_level_count(
                    capture.width as int,
                    capture.height as int,
                ) == 0,
                Error::OutputTooLarge => {
                    &&& spec_level_count(capture.width as int, capture.height as int) >= 1
                    &&& exists|k: int|
                        0 <= k < spec_level_count(capture.width as int, capture.height as int)
                            && !level_fits(
                            *capture,
                            #[trigger] spec_get_tile_size(
                                capture.width as int,
                                capture.height as int,
                                k,
                            ).unwrap(),
                        )
                },
                _ => false,
            },
        },
{
    let ghost w_ = capture.width as int;
    let ghost h_ = capture.height as int;
    let mut sizes: Vec<Size> = Vec::new();
    let mut level: u32 = 0;
    let mut done = false;
    while !done
        invariant
            capture.wf(),
            w_ == capture.width as int,
            h_ == capture.height as int,
            level as int == sizes@.len(),
            level <= 31,
            forall|j: int|
                0 <= j < level ==> spec_get_tile_size(w_, h_, j) == Some(#[trigger] sizes@[j]),
            forall|j: int|
                0 <= j < level ==> 1 <= (#[trigger] sizes@[j]).width <= capture.width && 1
                    <= sizes@[j].height <= capture.height,
            done ==> spec_get_tile_size(w_, h_, level as int) is None,
        decreases 32 - level, (if done { 0int } else { 1int }),
    {
        match get_tile_size(capture, level) {
            Some(s) => {
                proof {
                    if level == 31 {
                        lemma_cell_empty_beyond_31(w_, h_, level as int);
                    }
                }
                sizes.push(s);
                level = level + 1;
            },
            None => {
                done = true;
            },
        }
    }
    proof {
        assert forall|j: int| 0 <= j < level implies spec_get_tile_size(w_, h_, j) is Some by {
            assert(spec_get_tile_size(w_, h_, j) == Some(sizes@[j]));
        }
        lemma_count_is_first_none(w_, h_, 0, level as int);
    }
    let count = sizes.len();
    if count == 0 {
        return Err(Error::CaptureTooSmall);
    }
    let mut levels: Vec<Image> = Vec::new();
    let mut i: usize = 0;
    while i < count
        invariant
            capture.wf(),
            w_ == capture.width as int,
            h_ == capture.height as int,
            1 <= count <= 31,
            count as int == sizes@.len(),
            count as int == spec_level_count(w_, h_),
            forall|j: int|
                0 <= j < count ==> spec_get_tile_size(w_, h_, j) == Some(#[trigger] sizes@[j]),
            forall|j: int|
                0 <= j < count ==> 1 <= (#[trigger] sizes@[j]).width <= capture.width && 1
                    <= sizes@[j].height <= capture.height,
            i <= count,
            levels@.len() == i,
            forall|m: int|
                0 <= m < i ==> {
                    let s = sizes@[count - 1 - m];
                    &&& (#[trigger] levels@[m]).wf()
                    &&& levels@[m].width == capture.width
                    &&& levels@[m].height == capture.height
                    &&& levels@[m].data@ == spec_mosaify(
                        capture.data@,
                        w_,
                        h_,
                        s.width as int,
                        s.height as int,
                    )
                },
        decreases count - i,
    {
        let k = count - 1 - i;
        let s = sizes[k];
        let lvl = match mosaify(capture, s) {
            Ok(l) => l,
            Err(_) => {
                proof {
                    assert(spec_get_tile_size(w_, h_, k as int) == Some(sizes@[k as int]));
                    assert(0 <= (k as int) && (k as int) < spec_level_count(w_, h_));
                    assert(!level_fits(*capture, spec_get_tile_size(w_, h_, k as int).unwrap()));
                }
                return Err(Error::OutputTooLarge);
            },
        };
        levels.push(lvl);
        i = i + 1;
    }
    proof {
        assert forall|m: int| 0 <= m < levels@.len() implies {
            let s = spec_get_tile_size(w_, h_, levels@.len() - 1 - m).unwrap();
            &&& (#[trigger] levels@[m]).wf()
            &&& levels@[m].width == capture.width
            &&& levels@[m].height == capture.height
            &&& levels@[m].data@ == spec_mosaify(capture.data@, w_, h_, s.width as int, s.height as int)
        } by {
            let kk = levels@.len() - 1 - m;
            assert(spec_get_tile_size(w_, h_, kk) == Some(sizes@[kk]));
        }
    }
    Ok(levels)
}

} // verus!
