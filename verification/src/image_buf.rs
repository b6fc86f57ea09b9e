//! Raw RGB pixel buffers.
//!
//! An [`Image`] is a width, a height and a row-major `Vec` of [`Rgb`] pixels,
//! with no embedded metadata. All of the library's geometry is phrased over
//! this one representation.

use vstd::prelude::*;

verus! {

use vstd::arithmetic::mul::{lemma_mul_inequality, lemma_mul_is_commutative};

/// One RGB color value, eight bits per channel.
#[derive(Clone, Copy, Debug, PartialEq, Eq, Hash, Structural)]
pub struct Rgb {
    /// Red channel.
    pub r: u8,
    /// Green channel.
    pub g: u8,
    /// Blue channel.
    pub b: u8,
}

/// The defined default fill color: black.
pub open spec fn spec_black() -> Rgb {
    Rgb { r: 0, g: 0, b: 0 }
}

/// The defined default fill color: black.
#[verifier::when_used_as_spec(spec_black)]
pub fn black() -> (r: Rgb)
    ensures
        r == spec_black(),
{
    Rgb { r: 0, g: 0, b: 0 }
}

/// An owned RGB image: `width * height` pixels in row-major order.
#[derive(Debug, Clone)]
pub struct Image {
    /// Width in pixels.
    pub width: u32,
    /// Height in pixels.
    pub height: u32,
    /// The pixels, row by row: pixel `(x, y)` sits at index `y * width + x`.
    pub data: Vec<Rgb>,
}

impl Image {
    /// A well-formed image holds exactly one pixel per coordinate.
    pub open spec fn wf(self) -> bool {
        self.data@.len() == self.width as int * self.height as int
    }

    /// The pixel at `(x, y)`, as the row-major layout places it.
    pub open spec fn pix(self, x: int, y: int) -> Rgb {
        self.data@[y * self.width as int + x]
    }

    /// Number of pixels.
    pub open spec fn area(self) -> int {
        self.width as int * self.height as int
    }

    /// Allocate a `width` by `height` image filled with [`black()`].
    pub fn new(width: u32, height: u32) -> (r: Image)
        requires
            width as int * height as int <= usize::MAX as int,
        ensures
            r.wf(),
            r.width == width,
            r.height == height,
            forall|i: int| 0 <= i < r.data@.len() ==> r.data@[i] == black(),
    {
        let n: usize = (width as usize) * (height as usize);
        let mut data: Vec<Rgb> = Vec::new();
        while data.len() < n
            invariant
                data@.len() <= n,
                forall|i: int| 0 <= i < data@.len() ==> data@[i] == black(),
            decreases n - data@.len(),
        {
            data.push(black());
        }
        Image { width, height, data }
    }

    /// Build an image from a prepared pixel buffer; `None` unless the buffer
    /// holds exactly `width * height` pixels.
    pub fn from_pixels(width: u32, height: u32, data: Vec<Rgb>) -> (r: Option<Image>)
        ensures
            match r {
                Some(img) => {
                    &&& img.wf()
                    &&& img.width == width
                    &&& img.height == height
                    &&& img.data@ == data@
                    &&& data@.len() == width as int * height as int
                },
                None => data@.len() != width as int * height as int,
            },
    {
        proof {
            vstd::arithmetic::mul::lemma_mul_basics(width as int);
            vstd::arithmetic::mul::lemma_mul_basics(height as int);
            vstd::arithmetic::mul::lemma_mul_is_commutative(width as int, height as int);
        }
        if width == 0 || height == 0 {
            if data.len() == 0 {
                Some(Image { width, height, data })
            } else {
                None
            }
        } else if data.len() / (height as usize) == width as usize
            && data.len() % (height as usize) == 0 {
            proof {
                vstd::arithmetic::div_mod::lemma_fundamental_div_mod(
                    data@.len() as int,
                    height as int,
                );
            }
            Some(Image { width, height, data })
        } else {
            proof {
                if data@.len() == width as int * height as int {
                    vstd::arithmetic::div_mod::lemma_fundamental_div_mod_converse(
                        data@.len() as int,
                        height as int,
                        width as int,
                        0,
                    );
                }
            }
            None
        }
    }

    /// Read the pixel at `(x, y)`.
    pub fn get_pixel(&self, x: u32, y: u32) -> (r: Rgb)
        requires
            self.wf(),
            x < self.width,
            y < self.height,
        ensures
            r == self.pix(x as int, y as int),
    {
        proof {
            lemma_area_fits_usize(*self);
            lemma_row_major_index_bound(
                self.width as int,
                self.height as int,
                x as int,
                y as int,
            );
        }
        self.data[(y as usize) * (self.width as usize) + (x as usize)]
    }

    /// Overwrite the pixel at `(x, y)` with `c`; every other pixel keeps its
    /// value.
    pub fn set_pixel(&mut self, x: u32, y: u32, c: Rgb)
        requires
            old(self).wf(),
            x < old(self).width,
            y < old(self).height,
        ensures
            final(self).wf(),
            final(self).width == old(self).width,
            final(self).height == old(self).height,
            final(self).data@ == old(self).data@.update(
                y as int * old(self).width as int + x as int,
                c,
            ),
            final(self).pix(x as int, y as int) == c,
            forall|xx: int, yy: int|
                0 <= xx < old(self).width && 0 <= yy < old(self).height && !(xx == x && yy == y)
                    ==> final(self).pix(xx, yy) == old(self).pix(xx, yy),
    {
        proof {
            lemma_area_fits_usize(*old(self));
            lemma_row_major_index_bound(
                self.width as int,
                self.height as int,
                x as int,
                y as int,
            );
        }
        let idx: usize = (y as usize) * (self.width as usize) + (x as usize);
        self.data.set(idx, c);
        proof {
            assert forall|xx: int, yy: int|
                0 <= xx < self.width && 0 <= yy < self.height && !(xx == x && yy == y)
                    implies final(self).pix(xx, yy) == old(self).pix(xx, yy) by {
                lemma_row_major_index_bound(
                    self.width as int,
                    self.height as int,
                    xx,
                    yy,
                );
                if yy * self.width as int + xx == y as int * self.width as int + x as int {
                    lemma_row_major_injective(
                        self.width as int,
                        xx,
                        yy,
                        x as int,
                        y as int,
                    );
                }
            }
        }
    }

    /// Copy the whole of `src` into this image, its top-left corner landing at
    /// `(off_x, off_y)`; pixels outside the written rectangle keep their value.
    pub fn copy_into(&mut self, src: &Image, off_x: u32, off_y: u32)
        requires
            old(self).wf(),
            src.wf(),
            off_x as int + src.width as int <= old(self).width as int,
            off_y as int + src.height as int <= old(self).height as int,
        ensures
            final(self).wf(),
            final(self).width == old(self).width,
            final(self).height == old(self).height,
            forall|dx: int, dy: int|
                0 <= dx < src.width && 0 <= dy < src.height
                    ==> final(self).pix(off_x as int + dx, off_y as int + dy) == src.pix(dx, dy),
            forall|xx: int, yy: int|
                0 <= xx < old(self).width && 0 <= yy < old(self).height
                    && !(off_x <= xx < off_x as int + src.width as int
                        && off_y <= yy < off_y as int + src.height as int)
                    ==> final(self).pix(xx, yy) == old(self).pix(xx, yy),
    {
        let mut dy: u32 = 0;
        while dy < src.height
            invariant
                old(self).wf(),
                src.wf(),
                off_x as int + src.width as int <= old(self).width as int,
                off_y as int + src.height as int <= old(self).height as int,
                dy <= src.height,
                self.wf(),
                self.width == old(self).width,
                self.height == old(self).height,
                forall|dx: int, dyy: int|
                    0 <= dx < src.width && 0 <= dyy < dy
                        ==> self.pix(off_x as int + dx, off_y as int + dyy) == src.pix(dx, dyy),
                forall|xx: int, yy: int|
                    0 <= xx < old(self).width && 0 <= yy < old(self).height
                        && !(off_x <= xx < off_x as int + src.width as int
                            && off_y <= yy < off_y as int + dy)
                        ==> self.pix(xx, yy) == old(self).pix(xx, yy),
            decreases src.height as int - dy as int,
        {
            let mut dx: u32 = 0;
            while dx < src.width
                invariant
                    old(self).wf(),
                    src.wf(),
                    off_x as int + src.width as int <= old(self).width as int,
                    off_y as int + src.height as int <= old(self).height as int,
                    dy < src.height,
                    dx <= src.width,
                    self.wf(),
                    self.width == old(self).width,
                    self.height == old(self).height,
                    forall|ddx: int, dyy: int|
                        0 <= ddx < src.width && 0 <= dyy < dy
                            ==> self.pix(off_x as int + ddx, off_y as int + dyy) == src.pix(
                                ddx,
                                dyy,
                            ),
                    forall|ddx: int|
                        0 <= ddx < dx
                            ==> self.pix(off_x as int + ddx, off_y as int + dy as int) == src.pix(
                                ddx,
                                dy as int,
                            ),
                    forall|xx: int, yy: int|
                        0 <= xx < old(self).width && 0 <= yy < old(self).height
                            && !(off_x <= xx < off_x as int + src.width as int
                                && off_y <= yy < off_y as int + dy as int + 1)
                            ==> self.pix(xx, yy) == old(self).pix(xx, yy),
                    forall|xx: int|
                        off_x as int + dx as int <= xx < off_x as int + src.width as int
                            ==> (#[trigger] self.pix(xx, off_y as int + dy as int)) == old(
                                self,
                            ).pix(xx, off_y as int + dy as int),
                decreases src.width as int - dx as int,
            {
                let c = src.get_pixel(dx, dy);
                self.set_pixel(off_x + dx, off_y + dy, c);
                dx = dx + 1;
            }
            dy = dy + 1;
        }
    }

    /// Copy out the top-left `width` by `height` rectangle as a new image.
    pub fn crop_top_left(&self, width: u32, height: u32) -> (r: Image)
        requires
            self.wf(),
            width <= self.width,
            height <= self.height,
        ensures
            r.wf(),
            r.width == width,
            r.height == height,
            forall|x: int, y: int|
                0 <= x < width && 0 <= y < height ==> r.pix(x, y) == self.pix(x, y),
    {
        proof {
            lemma_area_fits_usize(*self);
            lemma_mul_inequality(width as int, self.width as int, height as int);
            lemma_mul_inequality(height as int, self.height as int, self.width as int);
            lemma_mul_is_commutative(height as int, self.width as int);
            lemma_mul_is_commutative(width as int, height as int);
        }
        let mut r = Image::new(width, height);
        let mut y: u32 = 0;
        while y < height
            invariant
                self.wf(),
                width <= self.width,
                height <= self.height,
                y <= height,
                r.wf(),
                r.width == width,
                r.height == height,
                forall|xx: int, yy: int|
                    0 <= xx < width && 0 <= yy < y ==> r.pix(xx, yy) == self.pix(xx, yy),
            decreases height as int - y as int,
        {
            let mut x: u32 = 0;
            while x < width
                invariant
                    self.wf(),
                    width <= self.width,
                    height <= self.height,
                    y < height,
                    x <= width,
                    r.wf(),
                    r.width == width,
                    r.height == height,
                    forall|xx: int, yy: int|
                        0 <= xx < width && 0 <= yy < y ==> r.pix(xx, yy) == self.pix(xx, yy),
                    forall|xx: int|
                        0 <= xx < x ==> r.pix(xx, y as int) == self.pix(xx, y as int),
                decreases width as int - x as int,
            {
                let c = self.get_pixel(x, y);
                r.set_pixel(x, y, c);
                x = x + 1;
            }
            y = y + 1;
        }
        r
    }
}

/// Any existing image's pixel count fits in `usize`: the buffer that holds one
/// pixel per coordinate already has that length.
pub proof fn lemma_area_fits_usize(img: Image)
    requires
        img.wf(),
    ensures
        img.width as int * img.height as int <= usize::MAX as int,
{
    assert(vstd::std_specs::vec::spec_vec_len(&img.data) == img.data@.len());
}

/// A row-major index stays inside the buffer.
pub proof fn lemma_row_major_index_bound(w: int, h: int, x: int, y: int)
    by (nonlinear_arith)
    requires
        0 <= x < w,
        0 <= y < h,
    ensures
        0 <= y * w,
        y * w + x < w * h,
{
}

/// Distinct coordinates of one row-major grid use distinct indices.
pub proof fn lemma_row_major_injective(w: int, x1: int, y1: int, x2: int, y2: int)
    by (nonlinear_arith)
    requires
        0 <= x1 < w,
        0 <= x2 < w,
        y1 * w + x1 == y2 * w + x2,
    ensures
        x1 == x2,
        y1 == y2,
{
}

} // verus!
