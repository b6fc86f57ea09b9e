//! Tiles, the tile palette, and the color-to-tile memo map.
//!
//! A [`Tile`] is a candidate image together with its average color, computed
//! once at construction. A [`TileSet`] is the ordered, non-empty palette of
//! uniformly sized tiles for one mosaic build; it finds, for a query color,
//! the index of the tile whose average color minimizes the squared Euclidean
//! RGB distance, breaking ties toward the lowest index. A [`PixelToTileMap`]
//! memoizes that search per distinct color of one source image.

use vstd::prelude::*;

verus! {

use std::collections::HashMap;

use crate::Error;
use crate::image_buf::{Image, Rgb};
use crate::squaring::Size;

broadcast use vstd::std_specs::hash::group_hash_axioms;

/// Sum of the red channel over a pixel sequence.
pub open spec fn sum_r(s: Seq<Rgb>) -> int
    decreases s.len(),
{
    if s.len() == 0 {
        0
    } else {
        sum_r(s.drop_last()) + s.last().r
    }
}

/// Sum of the green channel over a pixel sequence.
pub open spec fn sum_g(s: Seq<Rgb>) -> int
    decreases s.len(),
{
    if s.len() == 0 {
        0
    } else {
        sum_g(s.drop_last()) + s.last().g
    }
}

/// Sum of the blue channel over a pixel sequence.
pub open spec fn sum_b(s: Seq<Rgb>) -> int
    decreases s.len(),
{
    if s.len() == 0 {
        0
    } else {
        sum_b(s.drop_last()) + s.last().b
    }
}

/// The channel-wise integer mean over a non-empty pixel sequence; the
/// fractional remainder of each channel is discarded, not rounded.
pub open spec fn avg_rgb(s: Seq<Rgb>) -> Rgb {
    Rgb {
        r: (sum_r(s) / s.len() as int) as u8,
        g: (sum_g(s) / s.len() as int) as u8,
        b: (sum_b(s) / s.len() as int) as u8,
    }
}

/// Squared Euclidean distance between two colors.
pub open spec fn sq_dist(a: Rgb, b: Rgb) -> int {
    (a.r - b.r) * (a.r - b.r) + (a.g - b.g) * (a.g - b.g) + (a.b - b.b) * (a.b - b.b)
}

/// Index of the tile among the first `n` whose average color lies closest to
/// `px`; on equal distance the lower index wins.
pub open spec fn closest_in_prefix(tiles: Seq<Tile>, px: Rgb, n: int) -> int
    decreases n,
{
    if n <= 1 {
        0
    } else {
        let best = closest_in_prefix(tiles, px, n - 1);
        if sq_dist(tiles[n - 1].avg, px) < sq_dist(tiles[best].avg, px) {
            n - 1
        } else {
            best
        }
    }
}

/// Index of the palette tile closest to `px`, lowest index on ties.
pub open spec fn closest_tile_idx(tiles: Seq<Tile>, px: Rgb) -> int {
    closest_in_prefix(tiles, px, tiles.len() as int)
}

/// The chosen prefix index is in range, minimizes the distance over the
/// prefix, and every earlier index is strictly farther away.
pub proof fn lemma_closest_in_prefix_props(tiles: Seq<Tile>, px: Rgb, n: int)
    requires
        1 <= n <= tiles.len(),
    ensures
        0 <= closest_in_prefix(tiles, px, n) < n,
        forall|j: int|
            0 <= j < n ==> sq_dist(tiles[closest_in_prefix(tiles, px, n)].avg, px)
                <= #[trigger] sq_dist(tiles[j].avg, px),
        forall|j: int|
            0 <= j < closest_in_prefix(tiles, px, n) ==> #[trigger] sq_dist(tiles[j].avg, px)
                > sq_dist(tiles[closest_in_prefix(tiles, px, n)].avg, px),
    decreases n,
{
    if n > 1 {
        lemma_closest_in_prefix_props(tiles, px, n - 1);
    }
}

/// Law: for every non-empty palette and query color, no tile lies strictly
/// closer to the query than the chosen tile.
pub proof fn lemma_closest_tile_minimal(tiles: Seq<Tile>, px: Rgb, j: int)
    requires
        tiles.len() >= 1,
        0 <= j < tiles.len(),
    ensures
        0 <= closest_tile_idx(tiles, px) < tiles.len(),
        sq_dist(tiles[closest_tile_idx(tiles, px)].avg, px) <= sq_dist(tiles[j].avg, px),
{
    lemma_closest_in_prefix_props(tiles, px, tiles.len() as int);
}

/// Law: ties break deterministically toward the lowest index. When two tiles
/// share one average color, the later of the two is never chosen, for any
/// query color.
pub proof fn lemma_closest_tile_tie_break(tiles: Seq<Tile>, px: Rgb, i: int, j: int)
    requires
        0 <= i < j < tiles.len(),
        tiles[i].avg == tiles[j].avg,
    ensures
        closest_tile_idx(tiles, px) != j,
{
    lemma_closest_in_prefix_props(tiles, px, tiles.len() as int);
}

/// A candidate image plus its average color, computed once at construction.
#[derive(Debug, Clone)]
pub struct Tile {
    /// The underlying image.
    pub img: Image,
    /// The channel-wise integer mean over every pixel of `img`.
    pub avg: Rgb,
}

impl Tile {
    /// A tile is well-formed when its image is, the image has at least one
    /// pixel, and the stored average is exactly the image's mean color.
    pub open spec fn wf(self) -> bool {
        &&& self.img.wf()
        &&& self.img.area() > 0
        &&& self.avg == avg_rgb(self.img.data@)
    }

    /// Wrap an image as a tile, computing its average color; an image with
    /// zero pixels is rejected rather than divided by.
    pub fn from_image(img: Image) -> (r: Result<Tile, Error>)
        requires
            img.wf(),
        ensures
            match r {
                Ok(t) => t.wf() && t.img == img && img.area() > 0,
                Err(e) => e == Error::ZeroPixelImage && img.area() == 0,
            },
    {
        let ghost s = img.data@;
        let n: usize = img.data.len();
        if n == 0 {
            return Err(Error::ZeroPixelImage);
        }
        let mut tot_r: u128 = 0;
        let mut tot_g: u128 = 0;
        let mut tot_b: u128 = 0;
        let mut i: usize = 0;
        while i < n
            invariant
                n == s.len(),
                s == img.data@,
                i <= n,
                tot_r == sum_r(s.take(i as int)),
                tot_g == sum_g(s.take(i as int)),
                tot_b == sum_b(s.take(i as int)),
                tot_r <= 255 * i,
                tot_g <= 255 * i,
                tot_b <= 255 * i,
            decreases n - i,
        {
            let c = img.data[i];
            proof {
                lemma_sum_take_step(s, i as int);
                lemma_sum_bounds(s.take(i as int));
            }
            tot_r = tot_r + c.r as u128;
            tot_g = tot_g + c.g as u128;
            tot_b = tot_b + c.b as u128;
            i = i + 1;
        }
        proof {
            assert(s.take(n as int) =~= s);
            lemma_div_mean_bound(sum_r(s), n as int);
            lemma_div_mean_bound(sum_g(s), n as int);
            lemma_div_mean_bound(sum_b(s), n as int);
        }
        let avg = Rgb {
            r: (tot_r / n as u128) as u8,
            g: (tot_g / n as u128) as u8,
            b: (tot_b / n as u128) as u8,
        };
        Ok(Tile { img, avg })
    }

    /// Squared Euclidean distance between `px` and this tile's average color,
    /// in a signed domain wide enough that it cannot overflow.
    pub fn sq_dist_to(&self, px: &Rgb) -> (r: i32)
        ensures
            r as int == sq_dist(self.avg, *px),
    {
        let p_r = px.r as i32;
        let p_g = px.g as i32;
        let p_b = px.b as i32;
        let q_r = self.avg.r as i32;
        let q_g = self.avg.g as i32;
        let q_b = self.avg.b as i32;
        proof {
            lemma_sq_delta_bounds(p_r as int, q_r as int);
            lemma_sq_delta_bounds(p_g as int, q_g as int);
            lemma_sq_delta_bounds(p_b as int, q_b as int);
        }
        (p_r - q_r) * (p_r - q_r) + (p_g - q_g) * (p_g - q_g) + (p_b - q_b) * (p_b - q_b)
    }

    /// The underlying image.
    pub fn img(&self) -> (r: &Image)
        ensures
            r == self.img,
    {
        &self.img
    }

    /// The tile's average color.
    pub fn average_color(&self) -> (r: Rgb)
        ensures
            r == self.avg,
    {
        self.avg
    }

    /// Width of the underlying image.
    pub fn x_len(&self) -> (r: u32)
        ensures
            r == self.img.width,
    {
        self.img.width
    }

    /// Height of the underlying image.
    pub fn y_len(&self) -> (r: u32)
        ensures
            r == self.img.height,
    {
        self.img.height
    }
}

/// All images of a sequence share the dimensions of the first.
pub open spec fn uniform_dims(imgs: Seq<Image>) -> bool {
    forall|i: int|
        0 <= i < imgs.len() ==> (#[trigger] imgs[i]).width == imgs[0].width && imgs[i].height
            == imgs[0].height
}

/// The ordered, non-empty palette of uniformly sized tiles for one build.
#[derive(Debug)]
pub struct TileSet {
    /// The tiles, in the order their images were supplied.
    pub tiles: Vec<Tile>,
}

impl TileSet {
    /// A palette is well-formed when it is non-empty and every tile is
    /// well-formed with the dimensions of the first.
    pub open spec fn wf(self) -> bool {
        &&& self.tiles@.len() >= 1
        &&& forall|i: int|
            0 <= i < self.tiles@.len() ==> (#[trigger] self.tiles@[i]).wf()
                && self.tiles@[i].img.width == self.tiles@[0].img.width
                && self.tiles@[i].img.height == self.tiles@[0].img.height
    }

    /// Dimensions shared by every tile of the palette.
    pub open spec fn spec_tile_size(self) -> Size {
        Size { width: self.tiles@[0].img.width, height: self.tiles@[0].img.height }
    }

    /// Wrap each image as a tile, preserving order. Fails fast on an empty
    /// list, on images of differing dimensions (naming the expected and the
    /// offending size), and on zero-pixel images.
    pub fn from_images(imgs: Vec<Image>) -> (r: Result<TileSet, Error>)
        requires
            forall|i: int| 0 <= i < imgs@.len() ==> (#[trigger] imgs@[i]).wf(),
        ensures
            match r {
                Ok(ts) => {
                    &&& ts.wf()
                    &&& ts.tiles@.len() == imgs@.len()
                    &&& forall|i: int|
                        0 <= i < imgs@.len() ==> (#[trigger] ts.tiles@[i]).img == imgs@[i]
                    &&& imgs@.len() >= 1
                    &&& uniform_dims(imgs@)
                    &&& imgs@[0].area() > 0
                },
                Err(e) => match e {
                    Error::EmptyTileSet => imgs@.len() == 0,
                    Error::DimensionMismatch { expected, actual } => {
                        &&& imgs@.len() >= 1
                        &&& !uniform_dims(imgs@)
                        &&& expected == (Size {
                            width: imgs@[0].width,
                            height: imgs@[0].height,
                        })
                        &&& exists|i: int|
                            0 <= i < imgs@.len() && (#[trigger] imgs@[i]).width == actual.width
                                && imgs@[i].height == actual.height && !(imgs@[i].width
                                == imgs@[0].width && imgs@[i].height == imgs@[0].height)
                    },
                    Error::ZeroPixelImage => {
                        &&& imgs@.len() >= 1
                        &&& uniform_dims(imgs@)
                        &&& imgs@[0].area() == 0
                    },
                    _ => false,
                },
            },
    {
        if imgs.len() == 0 {
            return Err(Error::EmptyTileSet);
        }
        let first_w = imgs[0].width;
        let first_h = imgs[0].height;
        let mut i: usize = 1;
        while i < imgs.len()
            invariant
                imgs@.len() >= 1,
                i <= imgs@.len(),
                first_w == imgs@[0].width,
                first_h == imgs@[0].height,
                forall|j: int|
                    0 <= j < i ==> (#[trigger] imgs@[j]).width == first_w && imgs@[j].height
                        == first_h,
            decreases imgs@.len() - i,
        {
            if imgs[i].width != first_w || imgs[i].height != first_h {
                return Err(Error::DimensionMismatch {
                    expected: Size { width: first_w, height: first_h },
                    actual: Size { width: imgs[i].width, height: imgs[i].height },
                });
            }
            i = i + 1;
        }
        if imgs[0].data.len() == 0 {
            return Err(Error::ZeroPixelImage);
        }
        let mut tiles: Vec<Tile> = Vec::new();
        let mut imgs = imgs;
        let ghost all = imgs@;
        proof {
            assert(vstd::std_specs::vec::spec_vec_len(&imgs) == all.len());
        }
        let mut k: usize = 0;
        // Consume the images front to back, wrapping each as a tile.
        while imgs.len() > 0
            invariant
                all.len() >= 1,
                all.len() <= usize::MAX,
                imgs@ == all.skip(k as int),
                k == all.len() - imgs@.len(),
                0 <= k <= all.len(),
                tiles@.len() == k,
                forall|j: int| 0 <= j < all.len() ==> (#[trigger] all[j]).wf(),
                forall|j: int|
                    0 <= j < all.len() ==> (#[trigger] all[j]).width == all[0].width
                        && all[j].height == all[0].height,
                all[0].area() > 0,
                forall|j: int|
                    0 <= j < k ==> (#[trigger] tiles@[j]).wf() && tiles@[j].img == all[j],
            decreases imgs@.len(),
        {
            let img = imgs.remove(0);
            proof {
                assert(img == all[k as int]);
                assert(img.width as int * img.height as int == all[0].width as int
                    * all[0].height as int);
                assert(imgs@ =~= all.skip(k as int + 1));
            }
            let t = match Tile::from_image(img) {
                Ok(t) => t,
                Err(_) => {
                    proof {
                        assert(false);
                    }
                    return Err(Error::ZeroPixelImage);
                },
            };
            tiles.push(t);
            proof {
                assert(k < all.len());
            }
            k = k + 1;
        }
        Ok(TileSet { tiles })
    }

    /// Width shared by every tile.
    pub fn tile_x_len(&self) -> (r: u32)
        requires
            self.wf(),
        ensures
            r == self.spec_tile_size().width,
    {
        self.tiles[0].x_len()
    }

    /// Height shared by every tile.
    pub fn tile_y_len(&self) -> (r: u32)
        requires
            self.wf(),
        ensures
            r == self.spec_tile_size().height,
    {
        self.tiles[0].y_len()
    }

    /// Number of tiles in the palette.
    pub fn len(&self) -> (r: usize)
        ensures
            r == self.tiles@.len(),
    {
        self.tiles.len()
    }

    /// Index of the tile whose average color minimizes the squared Euclidean
    /// distance to `px`; on ties the lowest index wins.
    pub fn closest_tile(&self, px: &Rgb) -> (idx: usize)
        requires
            self.wf(),
        ensures
            idx as int == closest_tile_idx(self.tiles@, *px),
            idx < self.tiles@.len(),
            forall|j: int|
                0 <= j < self.tiles@.len() ==> sq_dist(self.tiles@[idx as int].avg, *px)
                    <= #[trigger] sq_dist(self.tiles@[j].avg, *px),
            forall|j: int|
                0 <= j < idx ==> #[trigger] sq_dist(self.tiles@[j].avg, *px) > sq_dist(
                    self.tiles@[idx as int].avg,
                    *px,
                ),
    {
        let ghost tiles = self.tiles@;
        let mut best: usize = 0;
        let mut best_dist: i32 = self.tiles[0].sq_dist_to(px);
        let mut i: usize = 1;
        while i < self.tiles.len()
            invariant
                self.wf(),
                tiles == self.tiles@,
                1 <= i <= tiles.len(),
                best < i,
                best as int == closest_in_prefix(tiles, *px, i as int),
                best_dist as int == sq_dist(tiles[best as int].avg, *px),
            decreases tiles.len() - i,
        {
            let d = self.tiles[i].sq_dist_to(px);
            if d < best_dist {
                best = i;
                best_dist = d;
            }
            i = i + 1;
        }
        proof {
            lemma_closest_in_prefix_props(tiles, *px, tiles.len() as int);
        }
        best
    }

    /// Build the memo map for `img`: every distinct color that appears in the
    /// image is resolved to its closest tile exactly once.
    pub fn map_to(&self, img: &Image) -> (r: PixelToTileMap)
        requires
            self.wf(),
            img.wf(),
        ensures
            r.maps_image(self.tiles@, *img),
    {
        let ghost tiles = self.tiles@;
        let mut map: HashMap<u32, usize> = HashMap::new();
        let n: usize = img.data.len();
        let mut i: usize = 0;
        while i < n
            invariant
                self.wf(),
                tiles == self.tiles@,
                img.wf(),
                n == img.data@.len(),
                i <= n,
                map_consistent(map@, tiles),
                forall|j: int|
                    0 <= j < i ==> map@.contains_key(color_key(#[trigger] img.data@[j])),
            decreases n - i,
        {
            let c = img.data[i];
            let k = color_key_of(&c);
            if !map.contains_key(&k) {
                let idx = self.closest_tile(&c);
                let ghost pre = map@;
                map.insert(k, idx);
                proof {
                    assert forall|kk: u32| map@.contains_key(kk) implies exists|cc: Rgb|
                        color_key(cc) == kk && 0 <= map@[kk] < tiles.len() && map@[kk]
                            == closest_tile_idx(tiles, cc) by {
                        if kk == k {
                            assert(color_key(c) == kk && 0 <= map@[kk] < tiles.len() && map@[kk]
                                == closest_tile_idx(tiles, c));
                        } else {
                            assert(pre.contains_key(kk) && pre[kk] == map@[kk]);
                        }
                    }
                }
            }
            i = i + 1;
        }
        let r = PixelToTileMap { map };
        proof {
            assert forall|j: int| 0 <= j < img.data@.len() implies {
                let kk = color_key(#[trigger] img.data@[j]);
                &&& r.map@.contains_key(kk)
                &&& 0 <= r.map@[kk] < tiles.len()
                &&& r.map@[kk] == closest_tile_idx(tiles, img.data@[j])
            } by {
                let cj = img.data@[j];
                let kk = color_key(cj);
                let cc = choose|cc: Rgb|
                    color_key(cc) == kk && 0 <= r.map@[kk] < tiles.len() && r.map@[kk]
                        == closest_tile_idx(tiles, cc);
                lemma_color_key_injective(cc, cj);
            }
        }
        r
    }
}

/// Encode a color as one integer key: the three channels packed side by side.
pub open spec fn color_key(c: Rgb) -> u32 {
    (c.r as u32 * 65536 + c.g as u32 * 256 + c.b as u32) as u32
}

/// Exec form of [`color_key`].
fn color_key_of(c: &Rgb) -> (r: u32)
    ensures
        r == color_key(*c),
{
    c.r as u32 * 65536 + c.g as u32 * 256 + c.b as u32
}

/// Two colors with one key are one color.
pub proof fn lemma_color_key_injective(c1: Rgb, c2: Rgb)
    requires
        color_key(c1) == color_key(c2),
    ensures
        c1 == c2,
{
}

/// Every key of the map decodes to a color whose entry is the index of that
/// color's closest tile.
pub open spec fn map_consistent(m: Map<u32, usize>, tiles: Seq<Tile>) -> bool {
    forall|k: u32|
        m.contains_key(k) ==> exists|c: Rgb|
            color_key(c) == k && 0 <= m[k] < tiles.len() && m[k] == closest_tile_idx(tiles, c)
}

/// The memo map of one mosaic build: each distinct color of the source image,
/// packed as an integer key, mapped to the index of its closest tile. Built
/// once per build and discarded with it.
#[derive(Debug)]
pub struct PixelToTileMap {
    /// Packed color key to tile index.
    pub map: HashMap<u32, usize>,
}

impl PixelToTileMap {
    /// The map resolves every color that appears in `img` to the index of its
    /// closest tile in `tiles`.
    pub open spec fn maps_image(self, tiles: Seq<Tile>, img: Image) -> bool {
        forall|j: int|
            0 <= j < img.data@.len() ==> {
                let k = color_key(#[trigger] img.data@[j]);
                &&& self.map@.contains_key(k)
                &&& 0 <= self.map@[k] < tiles.len()
                &&& self.map@[k] == closest_tile_idx(tiles, img.data@[j])
            }
    }

    /// Look the color `c` up; `None` exactly when no color with `c`'s key was
    /// ever resolved into the map.
    pub fn lookup(&self, c: &Rgb) -> (r: Option<usize>)
        ensures
            match r {
                Some(idx) => self.map@.contains_key(color_key(*c)) && idx == self.map@[color_key(
                    *c,
                )],
                None => !self.map@.contains_key(color_key(*c)),
            },
    {
        let k = color_key_of(c);
        match self.map.get(&k) {
            Some(idx) => Some(*idx),
            None => None,
        }
    }
}

/// Extending a prefix by one pixel adds that pixel's channels to the sums.
pub proof fn lemma_sum_take_step(s: Seq<Rgb>, i: int)
    requires
        0 <= i < s.len(),
    ensures
        sum_r(s.take(i + 1)) == sum_r(s.take(i)) + s[i].r,
        sum_g(s.take(i + 1)) == sum_g(s.take(i)) + s[i].g,
        sum_b(s.take(i + 1)) == sum_b(s.take(i)) + s[i].b,
{
    assert(s.take(i + 1).drop_last() =~= s.take(i));
    assert(s.take(i + 1).last() == s[i]);
}

/// Channel sums lie between zero and 255 per pixel.
pub proof fn lemma_sum_bounds(s: Seq<Rgb>)
    ensures
        0 <= sum_r(s) <= 255 * s.len(),
        0 <= sum_g(s) <= 255 * s.len(),
        0 <= sum_b(s) <= 255 * s.len(),
    decreases s.len(),
{
    if s.len() > 0 {
        lemma_sum_bounds(s.drop_last());
    }
}

/// A sum of `n` channel values, divided by `n`, stays a channel value.
pub proof fn lemma_div_mean_bound(a: int, n: int)
    by (nonlinear_arith)
    requires
        1 <= n,
        0 <= a <= 255 * n,
    ensures
        0 <= a / n <= 255,
{
}

/// A squared channel delta lies between zero and the largest square.
pub proof fn lemma_sq_delta_bounds(p: int, q: int)
    by (nonlinear_arith)
    requires
        0 <= p <= 255,
        0 <= q <= 255,
    ensures
        0 <= (p - q) * (p - q) <= 65025,
        (p - q) * (p - q) == (q - p) * (q - p),
{
}


/// Over a uniform sequence each channel sums to the channel value times the
/// length.
proof fn lemma_sum_uniform(s: Seq<Rgb>, c: Rgb)
    requires
        forall|i: int| 0 <= i < s.len() ==> s[i] == c,
    ensures
        sum_r(s) == c.r * s.len(),
        sum_g(s) == c.g * s.len(),
        sum_b(s) == c.b * s.len(),
    decreases s.len(),
{
    if s.len() == 0 {
        vstd::arithmetic::mul::lemma_mul_basics(c.r as int);
        vstd::arithmetic::mul::lemma_mul_basics(c.g as int);
        vstd::arithmetic::mul::lemma_mul_basics(c.b as int);
    } else {
        lemma_sum_uniform(s.drop_last(), c);
        vstd::arithmetic::mul::lemma_mul_is_distributive_add(c.r as int, s.len() - 1, 1);
        vstd::arithmetic::mul::lemma_mul_is_distributive_add(c.g as int, s.len() - 1, 1);
        vstd::arithmetic::mul::lemma_mul_is_distributive_add(c.b as int, s.len() - 1, 1);
        vstd::arithmetic::mul::lemma_mul_basics(c.r as int);
        vstd::arithmetic::mul::lemma_mul_basics(c.g as int);
        vstd::arithmetic::mul::lemma_mul_basics(c.b as int);
    }
}

/// Law: a tile built from a uniform-color image averages to exactly that
/// color, whatever the image's dimensions.
pub proof fn lemma_uniform_average(s: Seq<Rgb>, c: Rgb)
    requires
        s.len() >= 1,
        forall|i: int| 0 <= i < s.len() ==> s[i] == c,
    ensures
        avg_rgb(s) == c,
{
    lemma_sum_uniform(s, c);
    vstd::arithmetic::div_mod::lemma_div_by_multiple(c.r as int, s.len() as int);
    vstd::arithmetic::div_mod::lemma_div_by_multiple(c.g as int, s.len() as int);
    vstd::arithmetic::div_mod::lemma_div_by_multiple(c.b as int, s.len() as int);
}

} // verus!
