//! Splitting an image into a grid of fixed-size sections.
//!
//! A [`SectionedImage`] carves an arbitrary image into `cell`-sized
//! rectangles, clipping the final row and column against the image bounds and
//! padding the clipped remainder with the defined default fill, [`black()`].

use vstd::prelude::*;

verus! {

use crate::image_buf::{black, Image, Rgb};

/// A pair of per-axis pixel extents, such as one tile-grid cell's dimensions.
#[derive(Clone, Copy, Debug, PartialEq, Eq, Structural)]
pub struct Size {
    /// Extent along the x axis.
    pub width: u32,
    /// Extent along the y axis.
    pub height: u32,
}

/// A `(col, row)` position in a grid of sections.
#[derive(Clone, Copy, Debug, PartialEq, Eq, Structural)]
pub struct Coord {
    /// Column, counted from the left.
    pub x: u32,
    /// Row, counted from the top.
    pub y: u32,
}

/// `ceil(a / b)` over the integers, for `b > 0`.
pub open spec fn ceil_div(a: int, b: int) -> int {
    (a + b - 1) / b
}

impl Size {
    /// Number of pixels a rectangle of this size covers.
    pub fn area(&self) -> (r: u32)
        requires
            self.width as int * self.height as int <= u32::MAX as int,
        ensures
            r as int == self.width as int * self.height as int,
    {
        self.width * self.height
    }
}

/// An image together with the section size it is to be carved into.
pub struct SectionedImage<'a> {
    /// The image being sectioned.
    pub texture: &'a Image,
    /// The size of one section.
    pub section_size: Size,
}

impl<'a> SectionedImage<'a> {
    /// The sectioning is meaningful when the image is well-formed and the
    /// cell has positive extent on both axes.
    pub open spec fn wf(self) -> bool {
        &&& self.texture.wf()
        &&& self.section_size.width >= 1
        &&& self.section_size.height >= 1
    }

    /// How many sections the grid has along each axis.
    pub open spec fn spec_section_count(self) -> Coord {
        Coord {
            x: ceil_div(self.texture.width as int, self.section_size.width as int) as u32,
            y: ceil_div(self.texture.height as int, self.section_size.height as int) as u32,
        }
    }

    /// Sections per axis: the ceiling of the image extent over the cell
    /// extent, so the final row and column may cover the image only partly.
    pub fn section_count(&self) -> (r: Coord)
        requires
            self.wf(),
        ensures
            r == self.spec_section_count(),
            r.x as int == ceil_div(self.texture.width as int, self.section_size.width as int),
            r.y as int == ceil_div(self.texture.height as int, self.section_size.height as int),
            r.x <= self.texture.width,
            r.y <= self.texture.height,
    {
        proof {
            lemma_ceil_div_bounds(self.texture.width as int, self.section_size.width as int);
            lemma_ceil_div_bounds(self.texture.height as int, self.section_size.height as int);
        }
        let x = ((self.texture.width as u64 + self.section_size.width as u64 - 1)
            / self.section_size.width as u64) as u32;
        let y = ((self.texture.height as u64 + self.section_size.height as u64 - 1)
            / self.section_size.height as u64) as u32;
        Coord { x, y }
    }

    /// The grid coordinates of every section, row-major: entry `i` is
    /// `(i % count.x, i / count.x)`.
    pub fn section_coords(&self) -> (r: Vec<Coord>)
        requires
            self.wf(),
        ensures
            r@.len() == self.spec_section_count().x as int * self.spec_section_count().y as int,
            forall|i: int|
                0 <= i < r@.len() ==> r@[i] == (Coord {
                    x: (i % self.spec_section_count().x as int) as u32,
                    y: (i / self.spec_section_count().x as int) as u32,
                }),
    {
        let count = self.section_count();
        let mut r: Vec<Coord> = Vec::new();
        proof {
            crate::image_buf::lemma_area_fits_usize(*self.texture);
            lemma_grid_area_le(
                self.texture.width as int,
                self.texture.height as int,
                count.x as int,
                count.y as int,
            );
        }
        let mut y: u32 = 0;
        while y < count.y
            invariant
                self.wf(),
                count == self.spec_section_count(),
                y <= count.y,
                r@.len() == count.x as int * y as int,
                forall|i: int|
                    0 <= i < r@.len() ==> r@[i] == (Coord {
                        x: (i % count.x as int) as u32,
                        y: (i / count.x as int) as u32,
                    }),
                count.x as int * count.y as int <= usize::MAX as int,
            decreases count.y as int - y as int,
        {
            let mut x: u32 = 0;
            proof {
                lemma_next_row_fits(count.x as int, count.y as int, y as int);
            }
            while x < count.x
                invariant
                    self.wf(),
                    count == self.spec_section_count(),
                    y < count.y,
                    x <= count.x,
                    r@.len() == count.x as int * y as int + x as int,
                    count.x as int * y as int + count.x as int <= count.x as int
                        * count.y as int <= usize::MAX as int,
                    forall|i: int|
                        0 <= i < r@.len() ==> r@[i] == (Coord {
                            x: (i % count.x as int) as u32,
                            y: (i / count.x as int) as u32,
                        }),
                decreases count.x as int - x as int,
            {
                r.push(Coord { x, y });
                proof {
                    lemma_row_major_coord(count.x as int, x as int, y as int);
                }
                x = x + 1;
            }
            y = y + 1;
        }
        r
    }

    /// What the section at grid coordinate `coord` holds at cell offset
    /// `(dx, dy)`: the image pixel there when the cell still overlaps the
    /// image, and the default fill beyond the image's trailing edge.
    pub open spec fn section_pixel(self, coord: Coord, dx: int, dy: int) -> Rgb {
        let sx = coord.x as int * self.section_size.width as int + dx;
        let sy = coord.y as int * self.section_size.height as int + dy;
        if sx < self.texture.width as int && sy < self.texture.height as int {
            self.texture.pix(sx, sy)
        } else {
            black()
        }
    }

    /// Copy the section at `coord` into a new buffer of exactly the section
    /// size; the part of the cell that lies beyond the image keeps the
    /// default fill.
    pub fn get_section(&self, coord: Coord) -> (r: Image)
        requires
            self.wf(),
            coord.x < self.spec_section_count().x,
            coord.y < self.spec_section_count().y,
            self.section_size.width as int * self.section_size.height as int
                <= usize::MAX as int,
        ensures
            r.wf(),
            r.width == self.section_size.width,
            r.height == self.section_size.height,
            forall|dx: int, dy: int|
                0 <= dx < self.section_size.width && 0 <= dy < self.section_size.height
                    ==> r.pix(dx, dy) == self.section_pixel(coord, dx, dy),
    {
        proof {
            lemma_ceil_div_cell_start(
                self.texture.width as int,
                self.section_size.width as int,
                coord.x as int,
            );
            lemma_ceil_div_cell_start(
                self.texture.height as int,
                self.section_size.height as int,
                coord.y as int,
            );
        }
        let base_x: u32 = coord.x * self.section_size.width;
        let base_y: u32 = coord.y * self.section_size.height;
        let clip_w: u32 = if self.section_size.width < self.texture.width - base_x {
            self.section_size.width
        } else {
            self.texture.width - base_x
        };
        let clip_h: u32 = if self.section_size.height < self.texture.height - base_y {
            self.section_size.height
        } else {
            self.texture.height - base_y
        };
        let mut r = Image::new(self.section_size.width, self.section_size.height);
        proof {
            assert forall|xx: int, yy: int|
                0 <= xx < r.width && 0 <= yy < r.height implies r.pix(xx, yy) == black() by {
                crate::image_buf::lemma_row_major_index_bound(
                    r.width as int,
                    r.height as int,
                    xx,
                    yy,
                );
            }
        }
        let mut dy: u32 = 0;
        while dy < clip_h
            invariant
                self.wf(),
                base_x == coord.x as int * self.section_size.width as int,
                base_y == coord.y as int * self.section_size.height as int,
                base_x < self.texture.width,
                base_y < self.texture.height,
                clip_w as int == vstd::math::min(
                    self.section_size.width as int,
                    self.texture.width as int - base_x as int,
                ),
                clip_h as int == vstd::math::min(
                    self.section_size.height as int,
                    self.texture.height as int - base_y as int,
                ),
                dy <= clip_h,
                r.wf(),
                r.width == self.section_size.width,
                r.height == self.section_size.height,
                forall|xx: int, yy: int|
                    0 <= xx < self.section_size.width && 0 <= yy < self.section_size.height
                        && !(xx < clip_w && yy < dy) ==> r.pix(xx, yy) == black(),
                forall|xx: int, yy: int|
                    0 <= xx < clip_w && 0 <= yy < dy ==> r.pix(xx, yy) == self.texture.pix(
                        base_x as int + xx,
                        base_y as int + yy,
                    ),
            decreases clip_h as int - dy as int,
        {
            let mut dx: u32 = 0;
            while dx < clip_w
                invariant
                    self.wf(),
                    base_x == coord.x as int * self.section_size.width as int,
                    base_y == coord.y as int * self.section_size.height as int,
                    base_x < self.texture.width,
                    base_y < self.texture.height,
                    clip_w as int == vstd::math::min(
                        self.section_size.width as int,
                        self.texture.width as int - base_x as int,
                    ),
                    clip_h as int == vstd::math::min(
                        self.section_size.height as int,
                        self.texture.height as int - base_y as int,
                    ),
                    dy < clip_h,
                    dx <= clip_w,
                    r.wf(),
                    r.width == self.section_size.width,
                    r.height == self.section_size.height,
                    forall|xx: int, yy: int|
                        0 <= xx < self.section_size.width && 0 <= yy < self.section_size.height
                            && !(xx < clip_w && yy < dy) && !(yy == dy && xx < dx)
                            ==> r.pix(xx, yy) == black(),
                    forall|xx: int, yy: int|
                        0 <= xx < clip_w && 0 <= yy < dy ==> r.pix(xx, yy) == self.texture.pix(
                            base_x as int + xx,
                            base_y as int + yy,
                        ),
                    forall|xx: int|
                        0 <= xx < dx ==> r.pix(xx, dy as int) == self.texture.pix(
                            base_x as int + xx,
                            base_y as int + dy as int,
                        ),
                decreases clip_w as int - dx as int,
            {
                let c = self.texture.get_pixel(base_x + dx, base_y + dy);
                r.set_pixel(dx, dy, c);
                dx = dx + 1;
            }
            dy = dy + 1;
        }
        r
    }
}

/// A grid no larger than an image on each axis covers no more cells than the
/// image has pixels.
proof fn lemma_grid_area_le(w: int, h: int, cx: int, cy: int)
    by (nonlinear_arith)
    requires
        0 <= cx <= w,
        0 <= cy <= h,
    ensures
        cx * cy <= w * h,
{
}

/// One more full row still fits inside the grid.
proof fn lemma_next_row_fits(cx: int, cy: int, y: int)
    by (nonlinear_arith)
    requires
        0 <= cx,
        0 <= y < cy,
    ensures
        cx * y + cx <= cx * cy,
        cx * (y + 1) == cx * y + cx,
{
}

/// Row-major position `y * cx + x` decodes back to `(x, y)`.
proof fn lemma_row_major_coord(cx: int, x: int, y: int)
    by (nonlinear_arith)
    requires
        0 <= x < cx,
        0 <= y,
    ensures
        (cx * y + x) % cx == x,
        (cx * y + x) / cx == y,
{
}

/// For positive `b`, `ceil(a / b)` is non-negative, at most `a`, and exact:
/// `ceil(a / b) * b` reaches `a`.
pub proof fn lemma_ceil_div_bounds(a: int, b: int)
    by (nonlinear_arith)
    requires
        0 <= a,
        1 <= b,
    ensures
        0 <= ceil_div(a, b) <= a,
        a <= ceil_div(a, b) * b,
        ceil_div(a, b) * b < a + b,
        a >= 1 ==> ceil_div(a, b) >= 1,
{
}

/// Every cell of a ceiling-divided grid starts strictly inside the extent it
/// divides.
pub proof fn lemma_ceil_div_cell_start(a: int, b: int, q: int)
    by (nonlinear_arith)
    requires
        0 <= a,
        1 <= b,
        0 <= q < ceil_div(a, b),
    ensures
        q * b < a,
        0 <= q * b,
{
}

} // verus!
