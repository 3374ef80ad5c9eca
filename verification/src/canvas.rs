//! The raster canvas: a dense grid of RGBA pixels.

use vstd::prelude::*;
use crate::error::CustomError;
use crate::rgba::{blend, Rgba};

verus! {

/// A `width` by `height` grid of pixels, stored row by row.
#[derive(Debug)]
pub struct Canvas {
    width: u32,
    height: u32,
    pixels: Vec<Rgba>,
}

/// The place of pixel `(x, y)` in a row-major buffer of rows `w` wide.
pub open spec fn offset(w: int, x: int, y: int) -> int {
    y * w + x
}

/// Every coordinate of a `w` by `h` grid has its place in the buffer.
proof fn lemma_offset_in_range(w: int, h: int, x: int, y: int)
    requires
        0 <= x < w,
        0 <= y < h,
    ensures
        0 <= offset(w, x, y) < w * h,
        offset(w, x, y) + w - x <= w * h,
{
    assert(0 <= y * w && y * w + w <= w * h) by (nonlinear_arith)
        requires
            0 <= y < h,
            0 < w,
    ;
}

/// Two coordinates with the same place in the buffer are the same.
proof fn lemma_offset_injective(w: int, x: int, y: int, p: int, q: int)
    requires
        0 <= x < w,
        0 <= p < w,
        offset(w, x, y) == offset(w, p, q),
    ensures
        x == p,
        y == q,
{
    assert(y == q) by (nonlinear_arith)
        requires
            0 <= x < w,
            0 <= p < w,
            y * w + x == q * w + p,
    ;
}

impl Canvas {
    /// The number of columns.
    pub closed spec fn w(&self) -> int {
        self.width as int
    }

    /// The number of rows.
    pub closed spec fn h(&self) -> int {
        self.height as int
    }

    /// The canvas is not empty and its buffer holds one pixel per coordinate.
    pub closed spec fn wf(&self) -> bool {
        &&& self.width > 0
        &&& self.height > 0
        &&& self.pixels@.len() == self.width * self.height
        &&& 4 * (self.width * self.height) <= usize::MAX
    }

    /// Whether `(x, y)` is a coordinate of this canvas.
    pub open spec fn contains(&self, x: int, y: int) -> bool {
        0 <= x < self.w() && 0 <= y < self.h()
    }

    /// Whether `(x, y)` lies on the outermost ring of pixels.
    pub open spec fn on_ring(&self, x: int, y: int) -> bool {
        x == 0 || y == 0 || x == self.w() - 1 || y == self.h() - 1
    }

    /// The pixel at `(x, y)`.
    pub closed spec fn at(&self, x: int, y: int) -> Rgba {
        self.pixels@[offset(self.width as int, x, y)]
    }

    /// Whether both canvases have the same width and height.
    pub open spec fn same_size(&self, other: &Canvas) -> bool {
        self.w() == other.w() && self.h() == other.h()
    }

    /// Whether both canvases have the same size and the same pixels.
    pub open spec fn same_pixels(&self, other: &Canvas) -> bool {
        &&& self.same_size(other)
        &&& forall|x: int, y: int| self.contains(x, y) ==> #[trigger] self.at(x, y) == other.at(x, y)
    }

    /// Every canvas has at least one pixel in each direction.
    pub proof fn lemma_not_empty(&self)
        requires
            self.wf(),
        ensures
            self.w() > 0,
            self.h() > 0,
            self.w() <= u32::MAX,
            self.h() <= u32::MAX,
    {
    }

    /// A canvas of the given size with every pixel set to `background`.
    pub fn new(width: u32, height: u32, background: Rgba) -> (c: Canvas)
        requires
            width > 0,
            height > 0,
            4 * (width * height) <= usize::MAX,
        ensures
            c.wf(),
            c.w() == width,
            c.h() == height,
            forall|x: int, y: int| c.contains(x, y) ==> #[trigger] c.at(x, y) == background,
    {
        let n: usize = width as usize * height as usize;
        let mut pixels: Vec<Rgba> = Vec::new();
        let mut i: usize = 0;
        while i < n
            invariant
                i <= n,
                pixels@.len() == i,
                forall|k: int| 0 <= k < i ==> pixels@[k] == background,
            decreases n - i,
        {
            pixels.push(background);
            i = i + 1;
        }
        let c = Canvas { width, height, pixels };
        proof {
            assert forall|x: int, y: int| c.contains(x, y) implies #[trigger] c.at(x, y)
                == background by {
                lemma_offset_in_range(width as int, height as int, x, y);
            }
        }
        c
    }

    /// The number of columns.
    pub fn width(&self) -> (w: u32)
        ensures
            w == self.w(),
    {
        self.width
    }

    /// The number of rows.
    pub fn height(&self) -> (h: u32)
        ensures
            h == self.h(),
    {
        self.height
    }

    /// The place of the pixel `(x, y)` in the buffer.
    fn index_of(&self, x: u32, y: u32) -> (i: usize)
        requires
            self.wf(),
            self.contains(x as int, y as int),
        ensures
            i == offset(self.w(), x as int, y as int),
            i < self.pixels@.len(),
    {
        proof {
            lemma_offset_in_range(self.w(), self.h(), x as int, y as int);
        }
        y as usize * self.width as usize + x as usize
    }

    /// Overwrites the pixel at `(x, y)`, which lies on the canvas.
    fn store(&mut self, x: u32, y: u32, color: Rgba)
        requires
            old(self).wf(),
            old(self).contains(x as int, y as int),
        ensures
            final(self).wf(),
            final(self).same_size(old(self)),
            forall|p: int, q: int|
                old(self).contains(p, q) ==> #[trigger] final(self).at(p, q) == if p == x && q
                    == y {
                    color
                } else {
                    old(self).at(p, q)
                },
    {
        let i = self.index_of(x, y);
        self.pixels.set(i, color);
        proof {
            assert forall|p: int, q: int| old(self).contains(p, q) implies #[trigger] self.at(
                p,
                q,
            ) == if p == x && q == y {
                color
            } else {
                old(self).at(p, q)
            } by {
                lemma_offset_in_range(self.w(), self.h(), p, q);
                if offset(self.w(), p, q) == offset(self.w(), x as int, y as int) {
                    lemma_offset_injective(self.w(), p, q, x as int, y as int);
                }
            }
        }
    }

    /// Reads the pixel at `(x, y)`; a coordinate outside the canvas is
    /// reported, never wrapped or clamped.
    pub fn get(&self, x: u32, y: u32) -> (res: Result<Rgba, CustomError>)
        requires
            self.wf(),
        ensures
            self.contains(x as int, y as int) ==> res == Ok::<Rgba, CustomError>(
                self.at(x as int, y as int),
            ),
            !self.contains(x as int, y as int) ==> res == Err::<Rgba, CustomError>(
                CustomError::OutOfCanvas,
            ),
    {
        if x >= self.width || y >= self.height {
            return Err(CustomError::OutOfCanvas);
        }
        let i = self.index_of(x, y);
        Ok(self.pixels[i])
    }

    /// Overwrites the pixel at `(x, y)`; a coordinate outside the canvas is
    /// reported and nothing is written.
    pub fn set(&mut self, x: u32, y: u32, color: Rgba) -> (res: Result<(), CustomError>)
        requires
            old(self).wf(),
        ensures
            final(self).wf(),
            final(self).same_size(old(self)),
            res is Ok <==> old(self).contains(x as int, y as int),
            res is Err ==> res == Err::<(), CustomError>(CustomError::OutOfCanvas) && *final(self)
                == *old(self),
            res is Ok ==> forall|p: int, q: int|
                old(self).contains(p, q) ==> #[trigger] final(self).at(p, q) == if p == x && q
                    == y {
                    color
                } else {
                    old(self).at(p, q)
                },
    {
        if x >= self.width || y >= self.height {
            return Err(CustomError::OutOfCanvas);
        }
        self.store(x, y, color);
        Ok(())
    }

    /// Overwrites the outermost ring of pixels (first and last row, first
    /// and last column) with the border colour; without one, nothing changes.
    pub fn apply_border(&mut self, border: Option<Rgba>)
        requires
            old(self).wf(),
        ensures
            final(self).wf(),
            final(self).same_size(old(self)),
            border is None ==> *final(self) == *old(self),
            border matches Some(color) ==> forall|p: int, q: int|
                old(self).contains(p, q) ==> #[trigger] final(self).at(p, q) == if old(
                    self,
                ).on_ring(p, q) {
                    color
                } else {
                    old(self).at(p, q)
                },
    {
        let color = match border {
            Some(color) => color,
            None => { return ; },
        };
        let last_row: u32 = self.height - 1;
        let last_column: u32 = self.width - 1;
        let mut x: u32 = 0;
        while x < self.width
            invariant
                self.wf(),
                self.same_size(old(self)),
                x <= self.w(),
                last_row == self.h() - 1,
                forall|p: int, q: int|
                    self.contains(p, q) ==> #[trigger] self.at(p, q) == if p < x && (q == 0 || q
                        == last_row) {
                        color
                    } else {
                        old(self).at(p, q)
                    },
            decreases self.w() - x,
        {
            self.store(x, 0, color);
            self.store(x, last_row, color);
            x = x + 1;
        }
        let mut y: u32 = 0;
        while y < self.height
            invariant
                self.wf(),
                self.same_size(old(self)),
                y <= self.h(),
                last_row == self.h() - 1,
                last_column == self.w() - 1,
                forall|p: int, q: int|
                    self.contains(p, q) ==> #[trigger] self.at(p, q) == if q == 0 || q == last_row
                        || (q < y && (p == 0 || p == last_column)) {
                        color
                    } else {
                        old(self).at(p, q)
                    },
            decreases self.h() - y,
        {
            self.store(0, y, color);
            self.store(last_column, y, color);
            y = y + 1;
        }
    }

    /// Composites `src` over the pixel at `(x, y)`.
    pub fn composite(&mut self, x: u32, y: u32, src: Rgba)
        requires
            old(self).wf(),
            old(self).contains(x as int, y as int),
        ensures
            final(self).wf(),
            final(self).same_size(old(self)),
            forall|p: int, q: int|
                old(self).contains(p, q) ==> #[trigger] final(self).at(p, q) == if p == x && q
                    == y {
                    src.over(old(self).at(p, q))
                } else {
                    old(self).at(p, q)
                },
    {
        let i = self.index_of(x, y);
        let under = self.pixels[i];
        self.store(x, y, blend(under, src));
    }

    /// Composites `src` over the pixel at `(x, y)` if that coordinate lies on
    /// the canvas, and does nothing otherwise.
    pub fn composite_clipped(&mut self, x: i64, y: i64, src: Rgba)
        requires
            old(self).wf(),
        ensures
            final(self).wf(),
            final(self).same_size(old(self)),
            forall|p: int, q: int|
                old(self).contains(p, q) ==> #[trigger] final(self).at(p, q) == if p == x && q
                    == y {
                    src.over(old(self).at(p, q))
                } else {
                    old(self).at(p, q)
                },
    {
        if 0 <= x && x < self.width as i64 && 0 <= y && y < self.height as i64 {
            self.composite(x as u32, y as u32, src);
        }
    }
    /// The raw pixel buffer: four bytes per pixel (red, green, blue, alpha),
    /// pixels row by row from the top-left corner.
    pub fn export(&self) -> (bytes: Vec<u8>)
        requires
            self.wf(),
        ensures
            bytes@.len() == 4 * (self.w() * self.h()),
            forall|x: int, y: int, c: int|
                self.contains(x, y) && 0 <= c < 4 ==> bytes@[4 * offset(self.w(), x, y) + c]
                    == #[trigger] self.at(x, y).0[c],
    {
        let n: usize = self.pixels.len();
        let mut bytes: Vec<u8> = Vec::new();
        let mut i: usize = 0;
        while i < n
            invariant
                i <= n,
                n == self.pixels@.len(),
                bytes@.len() == 4 * i,
                forall|k: int, c: int|
                    0 <= k < i && 0 <= c < 4 ==> bytes@[4 * k + c] == #[trigger] self.pixels@[k].0[c],
            decreases n - i,
        {
            let pixel = self.pixels[i];
            bytes.push(pixel.0[0]);
            bytes.push(pixel.0[1]);
            bytes.push(pixel.0[2]);
            bytes.push(pixel.0[3]);
            i = i + 1;
        }
        proof {
            assert forall|x: int, y: int, c: int| self.contains(x, y) && 0 <= c < 4 implies bytes@[4
                * offset(self.w(), x, y) + c] == #[trigger] self.at(x, y).0[c] by {
                lemma_offset_in_range(self.w(), self.h(), x, y);
            }
        }
        bytes
    }
}

impl Clone for Canvas {
    /// A second canvas with the same size and the same pixels.
    fn clone(&self) -> (copy: Self)
        ensures
            copy.wf() == self.wf(),
            copy.same_pixels(self),
    {
        Canvas { width: self.width, height: self.height, pixels: self.pixels.clone() }
    }
}

} // verus!
