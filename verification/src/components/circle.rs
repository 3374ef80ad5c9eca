//! Filled circles with supersampled edges.
//!
//! A circle with the centre pixel `(cx, cy)` and the radius `r` is the disc
//! of radius `r` around the middle of that pixel. Each pixel of its bounding
//! box is probed at a 4 by 4 grid of points, evenly spaced strictly inside
//! the pixel; the fraction of points that fall on the disc is the pixel's
//! coverage. All distances are measured in tenths of a pixel, which makes
//! every probe an integer.
//!
//! This anti-aliased policy is the one that `draw`, and with it every scene,
//! follows. `draw_aliased` is the faster fallback without partial coverage:
//! it fills a pixel at the colour's full alpha where the pixel is closer
//! than `r` to the centre pixel, and is only used where it is called by
//! name.

use vstd::prelude::*;
use crate::canvas::Canvas;
use crate::components::{ComponentTrait, GlyphPixel};
use crate::config::Config;
use crate::error::CustomError;
use crate::rgba::{lemma_same_channels, lemma_transparent_over, Rgba};

verus! {

/// A filled circle around the pixel `(cx, cy)`.
#[derive(Clone, Copy)]
pub struct Circle {
    /// Column of the centre.
    pub cx: u32,
    /// Row of the centre.
    pub cy: u32,
    /// Radius in pixels.
    pub r: u32,
    /// Fill colour.
    pub color: Rgba,
}

/// The offset, in tenths of a pixel, of the `k`-th of a pixel's four probe
/// positions from the middle of the centre pixel, where the pixel lies
/// `away` pixels from the centre.
pub open spec fn probe(away: int, k: int) -> int {
    10 * away + 2 * k - 5
}

impl Circle {
    /// A circle of the given centre, radius and colour.
    pub fn new(cx: u32, cy: u32, r: u32, color: Rgba) -> (circle: Circle)
        ensures
            circle == (Circle { cx, cy, r, color }),
    {
        Circle { cx, cy, r, color }
    }

    /// Whether the bounding box lies on a canvas of the given size.
    pub open spec fn fits(self, width: int, height: int) -> bool {
        &&& 0 <= self.cx - self.r
        &&& 0 <= self.cy - self.r
        &&& self.cx + self.r < width
        &&& self.cy + self.r < height
    }

    /// Whether `(x, y)` is a pixel of the bounding box.
    pub open spec fn in_box(self, x: int, y: int) -> bool {
        &&& self.cx - self.r <= x <= self.cx + self.r
        &&& self.cy - self.r <= y <= self.cy + self.r
    }

    /// Whether the probe `(i, j)` of the pixel `(x, y)`, for `i` and `j`
    /// from 1 to 4, lies on the disc.
    pub open spec fn probe_inside(self, x: int, y: int, i: int, j: int) -> bool {
        let dx = probe(x - self.cx, i);
        let dy = probe(y - self.cy, j);
        dx * dx + dy * dy <= 100 * (self.r * self.r)
    }

    /// How many of the probes `(i, 1)` to `(i, j)` lie on the disc.
    pub open spec fn column_count(self, x: int, y: int, i: int, j: int) -> int
        decreases j,
    {
        if j <= 0 {
            0
        } else {
            self.column_count(x, y, i, j - 1) + if self.probe_inside(x, y, i, j) {
                1int
            } else {
                0int
            }
        }
    }

    /// How many of the probes in the columns 1 to `i` lie on the disc.
    pub open spec fn grid_count(self, x: int, y: int, i: int) -> int
        decreases i,
    {
        if i <= 0 {
            0
        } else {
            self.grid_count(x, y, i - 1) + self.column_count(x, y, i, 4)
        }
    }

    /// The coverage of the pixel `(x, y)` in sixteenths.
    pub open spec fn coverage(self, x: int, y: int) -> int {
        self.grid_count(x, y, 4)
    }

    /// Counts the probes of the pixel `(x, y)` that lie on the disc.
    pub fn coverage_at(&self, x: u32, y: u32) -> (count: u32)
        ensures
            count == self.coverage(x as int, y as int),
            count <= 16,
    {
        proof {
            assert(0 <= self.r * self.r <= 0x1_0000_0000_0000_0000) by (nonlinear_arith)
                requires
                    0 <= self.r <= 0xffff_ffff,
            ;
        }
        let limit: i128 = 100 * (self.r as i128 * self.r as i128);
        let mut count: u32 = 0;
        let mut i: u32 = 1;
        while i <= 4
            invariant
                1 <= i <= 5,
                limit == 100 * (self.r * self.r),
                0 <= limit <= 0x100_0000_0000_0000_0000,
                count == self.grid_count(x as int, y as int, i - 1),
                count <= 4 * (i - 1),
            decreases 5 - i,
        {
            let dx: i128 = 10 * (x as i128 - self.cx as i128) + 2 * i as i128 - 5;
            let mut j: u32 = 1;
            let ghost before = count;
            while j <= 4
                invariant
                    1 <= i <= 4,
                    1 <= j <= 5,
                    limit == 100 * (self.r * self.r),
                    dx == probe(x - self.cx, i as int),
                    0 <= limit <= 0x100_0000_0000_0000_0000,
                    count == before + self.column_count(x as int, y as int, i as int, j - 1),
                    before <= 4 * (i - 1),
                    count <= before + (j - 1),
                decreases 5 - j,
            {
                let dy: i128 = 10 * (y as i128 - self.cy as i128) + 2 * j as i128 - 5;
                proof {
                    assert(0 <= dx * dx <= 0x1_0000_0000_0000_0000_0000 && 0 <= dy * dy
                        <= 0x1_0000_0000_0000_0000_0000) by (nonlinear_arith)
                        requires
                            -0x100_0000_0000 <= dx <= 0x100_0000_0000,
                            -0x100_0000_0000 <= dy <= 0x100_0000_0000,
                    ;
                }
                if dx * dx + dy * dy <= limit {
                    count = count + 1;
                }
                j = j + 1;
            }
            i = i + 1;
        }
        count
    }

    /// Whether the aliased circle fills the pixel `(x, y)`: whether the pixel
    /// is closer than `r` to the centre pixel.
    pub open spec fn solid(self, x: int, y: int) -> bool {
        (x - self.cx) * (x - self.cx) + (y - self.cy) * (y - self.cy) < self.r * self.r
    }

    /// The colour of the pixel `(x, y)` after the aliased circle was drawn,
    /// where `under` is its colour before.
    pub open spec fn paint_aliased(self, under: Rgba, x: int, y: int) -> Rgba {
        if self.solid(x, y) {
            self.color.over(under)
        } else {
            under
        }
    }

    /// Draws the circle without anti-aliasing: composites the colour, at its
    /// full alpha, over every pixel that is closer than `r` to the centre
    /// pixel. Fails with `OutOfCanvas`, before writing anything, if the
    /// bounding box leaves the canvas.
    pub fn draw_aliased(&self, canvas: &mut Canvas) -> (res: Result<(), CustomError>)
        requires
            old(canvas).wf(),
        ensures
            final(canvas).wf(),
            final(canvas).same_size(old(canvas)),
            res is Ok <==> self.fits(old(canvas).w(), old(canvas).h()),
            res is Err ==> res == Err::<(), CustomError>(CustomError::OutOfCanvas) && *final(canvas)
                == *old(canvas),
            res is Ok ==> forall|x: int, y: int|
                old(canvas).contains(x, y) ==> #[trigger] final(canvas).at(x, y)
                    == self.paint_aliased(old(canvas).at(x, y), x, y),
    {
        let width: u32 = canvas.width();
        let height: u32 = canvas.height();
        if self.cx < self.r || self.cy < self.r || self.cx as u64 + self.r as u64 >= width as u64
            || self.cy as u64 + self.r as u64 >= height as u64 {
            return Err(CustomError::OutOfCanvas);
        }
        proof {
            assert(0 <= self.r * self.r <= 0x1_0000_0000_0000_0000) by (nonlinear_arith)
                requires
                    0 <= self.r <= 0xffff_ffff,
            ;
        }
        let limit: i128 = self.r as i128 * self.r as i128;
        let left: u32 = self.cx - self.r;
        let right: u32 = self.cx + self.r;
        let top: u32 = self.cy - self.r;
        let bottom: u32 = self.cy + self.r;
        let mut y: u32 = top;
        while y <= bottom
            invariant
                old(canvas).wf(),
                canvas.wf(),
                canvas.same_size(old(canvas)),
                width == canvas.w(),
                height == canvas.h(),
                limit == self.r * self.r,
                left == self.cx - self.r,
                right == self.cx + self.r,
                top == self.cy - self.r,
                bottom == self.cy + self.r,
                right < width,
                bottom < height,
                top <= y <= bottom + 1,
                forall|p: int, q: int|
                    canvas.contains(p, q) ==> #[trigger] canvas.at(p, q) == if self.in_box(p, q)
                        && q < y {
                        self.paint_aliased(old(canvas).at(p, q), p, q)
                    } else {
                        old(canvas).at(p, q)
                    },
            decreases bottom + 1 - y,
        {
            let dy: i128 = y as i128 - self.cy as i128;
            let mut x: u32 = left;
            while x <= right
                invariant
                    old(canvas).wf(),
                    canvas.wf(),
                    canvas.same_size(old(canvas)),
                    width == canvas.w(),
                    height == canvas.h(),
                    limit == self.r * self.r,
                    dy == y - self.cy,
                    left == self.cx - self.r,
                    right == self.cx + self.r,
                    top == self.cy - self.r,
                    bottom == self.cy + self.r,
                    right < width,
                    bottom < height,
                    top <= y <= bottom,
                    left <= x <= right + 1,
                    forall|p: int, q: int|
                        canvas.contains(p, q) ==> #[trigger] canvas.at(p, q) == if self.in_box(
                            p,
                            q,
                        ) && (q < y || (q == y && p < x)) {
                            self.paint_aliased(old(canvas).at(p, q), p, q)
                        } else {
                            old(canvas).at(p, q)
                        },
                decreases right + 1 - x,
            {
                let dx: i128 = x as i128 - self.cx as i128;
                proof {
                    assert(0 <= dx * dx <= 0x1_0000_0000_0000_0000 && 0 <= dy * dy
                        <= 0x1_0000_0000_0000_0000) by (nonlinear_arith)
                        requires
                            -0x1_0000_0000 <= dx <= 0x1_0000_0000,
                            -0x1_0000_0000 <= dy <= 0x1_0000_0000,
                    ;
                }
                if dx * dx + dy * dy < limit {
                    canvas.composite(x, y, self.color);
                }
                x = x + 1;
            }
            y = y + 1;
        }
        proof {
            assert forall|p: int, q: int| old(canvas).contains(p, q) implies #[trigger] canvas.at(
                p,
                q,
            ) == self.paint_aliased(old(canvas).at(p, q), p, q) by {
                if !self.in_box(p, q) {
                    self.lemma_solid_in_box(p, q);
                }
            }
        }
        Ok(())
    }

    /// What the aliased circle fills lies in the bounding box.
    pub proof fn lemma_solid_in_box(self, x: int, y: int)
        ensures
            self.solid(x, y) ==> self.in_box(x, y),
    {
        let r = self.r as int;
        let dx = x - self.cx;
        let dy = y - self.cy;
        assert(dx * dx + dy * dy < r * r ==> -r < dx < r && -r < dy < r) by (nonlinear_arith)
            requires
                r >= 0,
        ;
    }

    /// The colour as it is laid on the pixel `(x, y)`: its alpha scaled by
    /// the pixel's coverage.
    pub open spec fn shade(self, x: int, y: int) -> Rgba {
        self.color.covered(self.coverage(x, y), 16)
    }
}

impl ComponentTrait for Circle {
    open spec fn refusal(&self, config: Config, width: int, height: int) -> Option<CustomError> {
        if self.fits(width, height) {
            None
        } else {
            Some(CustomError::OutOfCanvas)
        }
    }

    open spec fn paint(&self, under: Rgba, x: int, y: int, glyphs: Seq<GlyphPixel>) -> Rgba {
        if self.in_box(x, y) {
            self.shade(x, y).over(under)
        } else {
            under
        }
    }

    /// Composites the colour over every pixel of the bounding box at the
    /// pixel's coverage, or fails with `OutOfCanvas` before writing anything
    /// if the bounding box leaves the canvas.
    fn draw(&self, config: Config, canvas: &mut Canvas, glyphs: &Vec<GlyphPixel>) -> (res: Result<
        (),
        CustomError,
    >) {
        let width: u32 = canvas.width();
        let height: u32 = canvas.height();
        if self.cx < self.r || self.cy < self.r || self.cx as u64 + self.r as u64 >= width as u64
            || self.cy as u64 + self.r as u64 >= height as u64 {
            return Err(CustomError::OutOfCanvas);
        }
        let left: u32 = self.cx - self.r;
        let right: u32 = self.cx + self.r;
        let top: u32 = self.cy - self.r;
        let bottom: u32 = self.cy + self.r;
        let mut y: u32 = top;
        while y <= bottom
            invariant
                old(canvas).wf(),
                canvas.wf(),
                canvas.same_size(old(canvas)),
                width == canvas.w(),
                height == canvas.h(),
                left == self.cx - self.r,
                right == self.cx + self.r,
                top == self.cy - self.r,
                bottom == self.cy + self.r,
                right < width,
                bottom < height,
                top <= y <= bottom + 1,
                forall|p: int, q: int|
                    canvas.contains(p, q) ==> #[trigger] canvas.at(p, q) == if self.in_box(p, q)
                        && q < y {
                        self.shade(p, q).over(old(canvas).at(p, q))
                    } else {
                        old(canvas).at(p, q)
                    },
            decreases bottom + 1 - y,
        {
            let mut x: u32 = left;
            while x <= right
                invariant
                    old(canvas).wf(),
                    canvas.wf(),
                    canvas.same_size(old(canvas)),
                    width == canvas.w(),
                    height == canvas.h(),
                    left == self.cx - self.r,
                    right == self.cx + self.r,
                    top == self.cy - self.r,
                    bottom == self.cy + self.r,
                    right < width,
                    bottom < height,
                    top <= y <= bottom,
                    left <= x <= right + 1,
                    forall|p: int, q: int|
                        canvas.contains(p, q) ==> #[trigger] canvas.at(p, q) == if self.in_box(
                            p,
                            q,
                        ) && (q < y || (q == y && p < x)) {
                            self.shade(p, q).over(old(canvas).at(p, q))
                        } else {
                            old(canvas).at(p, q)
                        },
                decreases right + 1 - x,
            {
                let count = self.coverage_at(x, y);
                canvas.composite(x, y, self.color.with_coverage(count, 16));
                x = x + 1;
            }
            y = y + 1;
        }
        Ok(())
    }
}

/// A probe of a pixel whose middle is closer than `r - 1` to the centre lies
/// on the disc. `x` and `y` are the pixel's distances from the centre pixel,
/// `a` and `b` the probe's offsets from the pixel's middle.
proof fn lemma_probe_on_disc(x: int, y: int, a: int, b: int, r: int)
    requires
        r >= 1,
        x * x + y * y < (r - 1) * (r - 1),
        -3 <= a <= 3,
        -3 <= b <= 3,
    ensures
        (10 * x + a) * (10 * x + a) + (10 * y + b) * (10 * y + b) <= 100 * (r * r),
{
    assert(-(r - 1) <= x <= r - 1 && -(r - 1) <= y <= r - 1) by (nonlinear_arith)
        requires
            r >= 1,
            x * x + y * y < (r - 1) * (r - 1),
    ;
    assert(a * x <= 3 * (r - 1) && b * y <= 3 * (r - 1)) by (nonlinear_arith)
        requires
            -(r - 1) <= x <= r - 1,
            -(r - 1) <= y <= r - 1,
            -3 <= a <= 3,
            -3 <= b <= 3,
    ;
    assert(a * a <= 9 && b * b <= 9) by (nonlinear_arith)
        requires
            -3 <= a <= 3,
            -3 <= b <= 3,
    ;
    assert((10 * x + a) * (10 * x + a) + (10 * y + b) * (10 * y + b) == 100 * (x * x + y * y) + 20
        * (a * x) + 20 * (b * y) + a * a + b * b) by (nonlinear_arith);
    assert(100 * ((r - 1) * (r - 1)) + 120 * (r - 1) + 18 <= 100 * (r * r)) by (nonlinear_arith)
        requires
            r >= 1,
    ;
}

/// A probe of a pixel of the bounding box whose middle is further than
/// `r + 1` from the centre lies off the disc.
proof fn lemma_probe_off_disc(x: int, y: int, a: int, b: int, r: int)
    requires
        -r <= x <= r,
        -r <= y <= r,
        x * x + y * y > (r + 1) * (r + 1),
        -3 <= a <= 3,
        -3 <= b <= 3,
    ensures
        (10 * x + a) * (10 * x + a) + (10 * y + b) * (10 * y + b) > 100 * (r * r),
{
    assert(a * x >= -3 * r && b * y >= -3 * r) by (nonlinear_arith)
        requires
            -r <= x <= r,
            -r <= y <= r,
            -3 <= a <= 3,
            -3 <= b <= 3,
    ;
    assert(a * a >= 0 && b * b >= 0) by (nonlinear_arith);
    assert((10 * x + a) * (10 * x + a) + (10 * y + b) * (10 * y + b) == 100 * (x * x + y * y) + 20
        * (a * x) + 20 * (b * y) + a * a + b * b) by (nonlinear_arith);
    assert(100 * ((r + 1) * (r + 1) + 1) - 120 * r > 100 * (r * r)) by (nonlinear_arith)
        requires
            r >= 0,
    ;
}

impl Circle {
    /// Where the probes of a pixel are all on the disc, or all off it, a
    /// column counts all of its probes, or none.
    proof fn lemma_uniform_column(self, x: int, y: int, i: int, j: int, inside: bool)
        requires
            0 <= j <= 4,
            forall|k: int| 1 <= k <= 4 ==> self.probe_inside(x, y, i, k) == inside,
        ensures
            self.column_count(x, y, i, j) == if inside {
                j
            } else {
                0
            },
        decreases j,
    {
        if j > 0 {
            self.lemma_uniform_column(x, y, i, j - 1, inside);
        }
    }

    /// Where the probes of a pixel are all on the disc, or all off it, the
    /// grid counts all of its probes, or none.
    proof fn lemma_uniform_grid(self, x: int, y: int, i: int, inside: bool)
        requires
            0 <= i <= 4,
            forall|h: int, k: int|
                1 <= h <= 4 && 1 <= k <= 4 ==> self.probe_inside(x, y, h, k) == inside,
        ensures
            self.grid_count(x, y, i) == if inside {
                4 * i
            } else {
                0
            },
        decreases i,
    {
        if i > 0 {
            self.lemma_uniform_grid(x, y, i - 1, inside);
            self.lemma_uniform_column(x, y, i, 4, inside);
        }
    }

    /// Every pixel whose middle is closer than `r - 1` to the circle's
    /// centre is covered in full: the fill colour is composited over it at
    /// its own alpha.
    pub proof fn lemma_full_inside(self, under: Rgba, x: int, y: int, glyphs: Seq<GlyphPixel>)
        requires
            self.r >= 1,
            (x - self.cx) * (x - self.cx) + (y - self.cy) * (y - self.cy) < (self.r - 1) * (self.r
                - 1),
        ensures
            self.coverage(x, y) == 16,
            self.paint(under, x, y, glyphs) == self.color.over(under),
    {
        let r = self.r as int;
        let dx = x - self.cx;
        let dy = y - self.cy;
        assert forall|h: int, k: int| 1 <= h <= 4 && 1 <= k <= 4 implies self.probe_inside(
            x,
            y,
            h,
            k,
        ) by {
            lemma_probe_on_disc(dx, dy, 2 * h - 5, 2 * k - 5, r);
        }
        self.lemma_uniform_grid(x, y, 4, true);
        assert(-(r - 1) <= dx <= r - 1 && -(r - 1) <= dy <= r - 1) by (nonlinear_arith)
            requires
                r >= 1,
                dx * dx + dy * dy < (r - 1) * (r - 1),
        ;
        assert(self.color.a() * 16 / 16 == self.color.a());
        lemma_same_channels(self.shade(x, y), self.color);
    }

    /// Every pixel whose middle is further than `r + 1` from the circle's
    /// centre stays as it was.
    pub proof fn lemma_none_outside(self, under: Rgba, x: int, y: int, glyphs: Seq<GlyphPixel>)
        requires
            (x - self.cx) * (x - self.cx) + (y - self.cy) * (y - self.cy) > (self.r + 1) * (self.r
                + 1),
        ensures
            self.in_box(x, y) ==> self.coverage(x, y) == 0,
            self.paint(under, x, y, glyphs) == under,
    {
        if self.in_box(x, y) {
            let r = self.r as int;
            let dx = x - self.cx;
            let dy = y - self.cy;
            assert forall|h: int, k: int| 1 <= h <= 4 && 1 <= k <= 4 implies !self.probe_inside(
                x,
                y,
                h,
                k,
            ) by {
                lemma_probe_off_disc(dx, dy, 2 * h - 5, 2 * k - 5, r);
            }
            self.lemma_uniform_grid(x, y, 4, false);
            assert(self.color.a() * 0 / 16 == 0);
            lemma_transparent_over(self.shade(x, y), under);
        }
    }
}

} // verus!
