//! Anti-aliased lines after Xiaolin Wu, in exact rational arithmetic.
//!
//! The line is brought into an orientation in which it runs along the
//! *major* axis at least as far as along the *minor* one, from the smaller
//! major coordinate to the larger. Each interior column of the major axis
//! then gets two pixels: the one the ideal line crosses and its neighbour
//! one further along the minor axis. They share the colour's alpha in
//! proportion to the fractional part of the crossing. Each endpoint covers
//! half of its pixel, so a line from a pixel to itself lays the colour on
//! it twice at half coverage. Pixels off the canvas are skipped.

use vstd::prelude::*;
use vstd::arithmetic::div_mod::{
    lemma_div_is_ordered,
    lemma_div_multiples_vanish,
    lemma_fundamental_div_mod,
    lemma_fundamental_div_mod_converse,
    lemma_mod_bound,
    lemma_mod_pos_bound,
};
use crate::canvas::Canvas;
use crate::components::{ComponentTrait, GlyphPixel};
use crate::config::Config;
use crate::error::CustomError;
use crate::rgba::{lemma_same_channels, lemma_transparent_over, Rgba};

verus! {

/// A line between the pixels `(x1, y1)` and `(x2, y2)`.
#[derive(Clone, Copy)]
pub struct Line {
    /// Column of the first endpoint.
    pub x1: u32,
    /// Row of the first endpoint.
    pub y1: u32,
    /// Column of the second endpoint.
    pub x2: u32,
    /// Row of the second endpoint.
    pub y2: u32,
    /// Colour of the line.
    pub color: Rgba,
}

/// The distance between two integers.
pub open spec fn distance(a: int, b: int) -> int {
    if a >= b {
        a - b
    } else {
        b - a
    }
}

/// Exchanges two values.
pub fn swap(a: &mut i64, b: &mut i64)
    ensures
        *final(a) == *old(b),
        *final(b) == *old(a),
{
    let held = *a;
    *a = *b;
    *b = held;
}

/// The absolute value.
pub fn absolute(x: i64) -> (size: i64)
    requires
        x > i64::MIN,
    ensures
        size == distance(x as int, 0),
{
    if x < 0 {
        -x
    } else {
        x
    }
}

/// The integer part of the fraction `num / den`: the largest integer that is
/// not above it.
pub fn ipart(num: i128, den: i128) -> (whole: i128)
    requires
        den > 0,
    ensures
        whole == num as int / den as int,
{
    if num >= 0 {
        num / den
    } else {
        let below: i128 = -(num + 1);
        let whole: i128 = -1 - below / den;
        proof {
            lemma_fundamental_div_mod(below as int, den as int);
            lemma_mod_pos_bound(below as int, den as int);
            let part = den - 1 - below as int % den as int;
            assert(num == whole * den + part) by (nonlinear_arith)
                requires
                    below == den * (below as int / den as int) + below as int % den as int,
                    below == -(num + 1),
                    whole == -1 - below as int / den as int,
                    part == den - 1 - below as int % den as int,
            ;
            lemma_fundamental_div_mod_converse(num as int, den as int, whole as int, part);
        }
        whole
    }
}

/// The fractional part of the fraction `num / den`, as a numerator over
/// `den`: what is left above the integer part, never negative.
pub fn fpart(num: i128, den: i128) -> (part: i128)
    requires
        den > 0,
    ensures
        part == num as int % den as int,
        0 <= part < den,
{
    if num >= 0 {
        proof {
            lemma_mod_pos_bound(num as int, den as int);
        }
        num % den
    } else {
        let below: i128 = -(num + 1);
        proof {
            lemma_mod_pos_bound(below as int, den as int);
        }
        let part: i128 = den - 1 - below % den;
        proof {
            lemma_fundamental_div_mod(below as int, den as int);
            let whole = -1 - below as int / den as int;
            assert(num == whole * den + part) by (nonlinear_arith)
                requires
                    below == den * (below as int / den as int) + below as int % den as int,
                    below == -(num + 1),
                    whole == -1 - below as int / den as int,
                    part == den - 1 - below as int % den as int,
            ;
            lemma_fundamental_div_mod_converse(num as int, den as int, whole, part as int);
        }
        part
    }
}

/// What the fractional part of `num / den` lacks to one, as a numerator
/// over `den`.
pub fn rfpart(num: i128, den: i128) -> (rest: i128)
    requires
        den > 0,
    ensures
        rest == den - num as int % den as int,
        0 < rest <= den,
{
    den - fpart(num, den)
}

/// Composites `color`, at the coverage `num / den`, over the pixel at
/// `(x, y)` if that pixel lies on the canvas.
pub fn draw_pixel(canvas: &mut Canvas, x: i64, y: i64, num: u32, den: u32, color: Rgba)
    requires
        old(canvas).wf(),
        0 < den,
        num <= den,
    ensures
        final(canvas).wf(),
        final(canvas).same_size(old(canvas)),
        forall|p: int, q: int|
            old(canvas).contains(p, q) ==> #[trigger] final(canvas).at(p, q) == if p == x && q
                == y {
                color.covered(num as int, den as int).over(old(canvas).at(p, q))
            } else {
                old(canvas).at(p, q)
            },
{
    let shade = color.with_coverage(num, den);
    canvas.composite_clipped(x, y, shade);
}

impl Line {
    /// A line between the two endpoints in the given colour.
    pub fn new(x1: u32, y1: u32, x2: u32, y2: u32, color: Rgba) -> (line: Line)
        ensures
            line == (Line { x1, y1, x2, y2, color }),
    {
        Line { x1, y1, x2, y2, color }
    }

    /// Whether the line rises more than it runs, so that rows are its
    /// major axis.
    pub open spec fn steep(self) -> bool {
        distance(self.y2 as int, self.y1 as int) > distance(self.x2 as int, self.x1 as int)
    }

    /// A pixel's `(major, minor)` coordinates in the line's orientation.
    pub open spec fn oriented(self, x: int, y: int) -> (int, int) {
        if self.steep() {
            (y, x)
        } else {
            (x, y)
        }
    }

    /// The endpoints in the line's orientation, the one with the smaller
    /// major coordinate first: `(major0, minor0, major1, minor1)`.
    pub open spec fn ends(self) -> (int, int, int, int) {
        let first = self.oriented(self.x1 as int, self.y1 as int);
        let second = self.oriented(self.x2 as int, self.y2 as int);
        if first.0 > second.0 {
            (second.0, second.1, first.0, first.1)
        } else {
            (first.0, first.1, second.0, second.1)
        }
    }

    /// How far the line runs along its major axis.
    pub open spec fn run(self) -> int {
        self.ends().2 - self.ends().0
    }

    /// How far the line rises along its minor axis while it runs; negative
    /// where it falls.
    pub open spec fn rise(self) -> int {
        self.ends().3 - self.ends().1
    }

    /// The minor coordinate of the pixel in which the ideal line crosses
    /// the major coordinate `m`.
    pub open spec fn crossing(self, m: int) -> int {
        self.ends().1 + ((m - self.ends().0) * self.rise()) / self.run()
    }

    /// How far beyond that pixel's minor coordinate the ideal line crosses,
    /// as a numerator over `run()`.
    pub open spec fn excess(self, m: int) -> int {
        ((m - self.ends().0) * self.rise()) % self.run()
    }

    /// The colour as an endpoint lays it down: at half coverage.
    pub open spec fn half(self) -> Rgba {
        self.color.covered(1, 2)
    }

    /// The colour of the pixel with the oriented coordinates `(m, n)` after
    /// drawing, where `under` is its colour before.
    pub open spec fn paint_oriented(self, under: Rgba, m: int, n: int) -> Rgba {
        let (m0, n0, m1, n1) = self.ends();
        if m0 == m1 {
            if m == m0 && n == n0 {
                self.half().over(self.half().over(under))
            } else {
                under
            }
        } else if m == m0 {
            if n == n0 {
                self.half().over(under)
            } else {
                under
            }
        } else if m == m1 {
            if n == n1 {
                self.half().over(under)
            } else {
                under
            }
        } else if m0 < m < m1 {
            if n == self.crossing(m) {
                self.color.covered(self.run() - self.excess(m), self.run()).over(under)
            } else if n == self.crossing(m) + 1 {
                self.color.covered(self.excess(m), self.run()).over(under)
            } else {
                under
            }
        } else {
            under
        }
    }

    /// The colour of the pixel `(m, n)` once the endpoints and the interior
    /// columns before `done` are drawn.
    spec fn progress(self, under: Rgba, m: int, n: int, done: int) -> Rgba {
        if self.ends().0 < m < self.ends().2 && m >= done {
            under
        } else {
            self.paint_oriented(under, m, n)
        }
    }

    /// The line never rises further than it runs, and both fit in 32 bits.
    pub proof fn lemma_gentle(self)
        ensures
            0 <= self.run() <= u32::MAX,
            -self.run() <= self.rise() <= self.run(),
    {
    }

    /// The ideal line stays between its endpoints.
    pub proof fn lemma_crossing_between(self, m: int)
        requires
            self.ends().0 < m < self.ends().2,
        ensures
            0 <= self.excess(m) < self.run(),
            self.rise() >= 0 ==> self.ends().1 <= self.crossing(m) <= self.ends().3,
            self.rise() <= 0 ==> self.ends().3 <= self.crossing(m) <= self.ends().1,
    {
        let k = m - self.ends().0;
        let run = self.run();
        let rise = self.rise();
        self.lemma_gentle();
        lemma_mod_bound(k * rise, run);
        if rise >= 0 {
            assert(0 <= k * rise <= run * rise) by (nonlinear_arith)
                requires
                    0 < k < run,
                    0 <= rise,
            ;
            lemma_div_is_ordered(0, k * rise, run);
            lemma_div_is_ordered(k * rise, run * rise, run);
            lemma_div_multiples_vanish(rise, run);
        }
        if rise <= 0 {
            assert(run * rise <= k * rise <= 0) by (nonlinear_arith)
                requires
                    0 < k < run,
                    rise <= 0,
            ;
            lemma_div_is_ordered(k * rise, 0, run);
            lemma_div_is_ordered(run * rise, k * rise, run);
            lemma_div_multiples_vanish(rise, run);
        }
    }
}

/// Composites `color`, at the coverage `num / den`, over the pixel with the
/// oriented coordinates `(m, n)`.
fn plot(canvas: &mut Canvas, line: &Line, steep: bool, m: i64, n: i64, num: u32, den: u32)
    requires
        old(canvas).wf(),
        steep == line.steep(),
        0 < den,
        num <= den,
    ensures
        final(canvas).wf(),
        final(canvas).same_size(old(canvas)),
        forall|p: int, q: int|
            old(canvas).contains(p, q) ==> #[trigger] final(canvas).at(p, q) == if line.oriented(
                p,
                q,
            ) == (m as int, n as int) {
                line.color.covered(num as int, den as int).over(old(canvas).at(p, q))
            } else {
                old(canvas).at(p, q)
            },
{
    if steep {
        draw_pixel(canvas, n, m, num, den, line.color);
    } else {
        draw_pixel(canvas, m, n, num, den, line.color);
    }
}

impl ComponentTrait for Line {
    open spec fn refusal(&self, config: Config, width: int, height: int) -> Option<CustomError> {
        None
    }

    open spec fn paint(&self, under: Rgba, x: int, y: int, glyphs: Seq<GlyphPixel>) -> Rgba {
        self.paint_oriented(under, self.oriented(x, y).0, self.oriented(x, y).1)
    }

    /// Draws the line; what falls outside the canvas is clipped.
    fn draw(&self, config: Config, canvas: &mut Canvas, glyphs: &Vec<GlyphPixel>) -> (res: Result<
        (),
        CustomError,
    >) {
        let mut x0: i64 = self.x1 as i64;
        let mut y0: i64 = self.y1 as i64;
        let mut x1: i64 = self.x2 as i64;
        let mut y1: i64 = self.y2 as i64;
        let steep = absolute(y1 - y0) > absolute(x1 - x0);
        if steep {
            swap(&mut x0, &mut y0);
            swap(&mut x1, &mut y1);
        }
        if x0 > x1 {
            swap(&mut x0, &mut x1);
            swap(&mut y0, &mut y1);
        }
        assert((x0 as int, y0 as int, x1 as int, y1 as int) == self.ends());
        let dx: i64 = x1 - x0;
        let dy: i64 = y1 - y0;
        proof {
            self.lemma_gentle();
        }

        plot(canvas, self, steep, x0, y0, 1, 2);
        plot(canvas, self, steep, x0, y0 + 1, 0, 2);
        plot(canvas, self, steep, x1, y1, 1, 2);
        plot(canvas, self, steep, x1, y1 + 1, 0, 2);
        proof {
            assert forall|p: int, q: int| old(canvas).contains(p, q) implies #[trigger] canvas.at(
                p,
                q,
            ) == self.progress(
                old(canvas).at(p, q),
                self.oriented(p, q).0,
                self.oriented(p, q).1,
                x0 + 1,
            ) by {
                let nothing = self.color.covered(0, 2);
                assert(nothing.a() == 0);
                let under = old(canvas).at(p, q);
                lemma_transparent_over(nothing, under);
                lemma_transparent_over(nothing, self.half().over(under));
                lemma_transparent_over(nothing, self.half().over(self.half().over(under)));
            }
        }

        let mut x: i64 = x0 + 1;
        while x < x1
            invariant
                old(canvas).wf(),
                canvas.wf(),
                canvas.same_size(old(canvas)),
                steep == self.steep(),
                (x0 as int, y0 as int, x1 as int, y1 as int) == self.ends(),
                dx == self.run(),
                dy == self.rise(),
                x0 < x,
                x0 < x1 ==> x <= x1,
                forall|p: int, q: int|
                    old(canvas).contains(p, q) ==> #[trigger] canvas.at(p, q) == self.progress(
                        old(canvas).at(p, q),
                        self.oriented(p, q).0,
                        self.oriented(p, q).1,
                        x as int,
                    ),
            decreases x1 - x,
        {
            proof {
                self.lemma_gentle();
                self.lemma_crossing_between(x as int);
                assert(-0x1_0000_0000_0000_0000 <= (x - x0) * dy <= 0x1_0000_0000_0000_0000)
                    by (nonlinear_arith)
                    requires
                        0 < x - x0 <= 0xffff_ffff,
                        -0xffff_ffff <= dy <= 0xffff_ffff,
                ;
            }
            let along: i128 = (x - x0) as i128 * dy as i128;
            let whole: i128 = ipart(along, dx as i128);
            let part: i128 = fpart(along, dx as i128);
            let rest: i128 = rfpart(along, dx as i128);
            let y: i64 = y0 + whole as i64;
            let ghost before = *canvas;
            plot(canvas, self, steep, x, y, rest as u32, dx as u32);
            plot(canvas, self, steep, x, y + 1, part as u32, dx as u32);
            x = x + 1;
            proof {
                assert forall|p: int, q: int| old(canvas).contains(p, q) implies #[trigger] canvas.at(
                    p,
                    q,
                ) == self.progress(
                    old(canvas).at(p, q),
                    self.oriented(p, q).0,
                    self.oriented(p, q).1,
                    x as int,
                ) by {
                    assert(before.contains(p, q));
                }
            }
        }
        Ok(())
    }
}

impl Line {
    /// Whether the pixel `(x, y)` lies on the segment between the endpoints:
    /// in line with them and within their bounding box.
    pub open spec fn on_segment(self, x: int, y: int) -> bool {
        &&& (x - self.x1) * (self.y2 - self.y1) == (y - self.y1) * (self.x2 - self.x1)
        &&& self.x1 <= x <= self.x2 || self.x2 <= x <= self.x1
        &&& self.y1 <= y <= self.y2 || self.y2 <= y <= self.y1
    }

    /// Whether the pixel `(x, y)` is one of the two endpoints.
    pub open spec fn is_end(self, x: int, y: int) -> bool {
        (x == self.x1 && y == self.y1) || (x == self.x2 && y == self.y2)
    }

    /// In a column that the ideal line crosses exactly in the middle of a
    /// pixel, that pixel gets the colour at its full alpha and every other
    /// pixel stays as it was.
    pub proof fn lemma_exact_crossing(self, under: Rgba, m: int, n: int)
        requires
            self.ends().0 < m < self.ends().2,
            self.excess(m) == 0,
        ensures
            self.paint_oriented(under, m, n) == if n == self.crossing(m) {
                self.color.over(under)
            } else {
                under
            },
    {
        let run = self.run();
        let full = self.color.covered(run, run);
        let nothing = self.color.covered(0, run);
        assert(self.color.a() * run / run == self.color.a()) by {
            lemma_div_multiples_vanish(self.color.a(), run);
            assert(self.color.a() * run == run * self.color.a()) by (nonlinear_arith);
        }
        assert(self.color.a() * 0 / run == 0);
        lemma_same_channels(full, self.color);
        lemma_transparent_over(nothing, under);
    }

    /// Along a row or a column the coverage is all or nothing: every pixel
    /// of the segment but its two endpoints gets the colour at its full
    /// alpha, and every pixel off the segment stays as it was. (Each
    /// endpoint covers half of its pixel.)
    pub proof fn lemma_axis_aligned(self, under: Rgba, x: int, y: int, glyphs: Seq<GlyphPixel>)
        requires
            self.x1 == self.x2 || self.y1 == self.y2,
            !self.is_end(x, y),
        ensures
            self.paint(under, x, y, glyphs) == if self.on_segment(x, y) {
                self.color.over(under)
            } else {
                under
            },
    {
        let (m, n) = self.oriented(x, y);
        let (m0, n0, m1, n1) = self.ends();
        assert(self.rise() == 0);
        if m0 < m < m1 {
            assert((m - m0) * 0 == 0);
            self.lemma_exact_crossing(under, m, n);
            assert(self.crossing(m) == n0);
        }
        assert((x - self.x1) * 0 == 0 && (y - self.y1) * 0 == 0);
        assert((y - self.y1) * (self.x2 - self.x1) == 0 <==> (y == self.y1 || self.x2 == self.x1))
            by (nonlinear_arith);
        assert((x - self.x1) * (self.y2 - self.y1) == 0 <==> (x == self.x1 || self.y2 == self.y1))
            by (nonlinear_arith);
    }

    /// Along a diagonal the coverage is all or nothing: where the line runs
    /// as far as it rises, every pixel of the segment but its two endpoints
    /// gets the colour at its full alpha, and every pixel off the segment
    /// stays as it was. (Each endpoint covers half of its pixel.)
    pub proof fn lemma_diagonal(self, under: Rgba, x: int, y: int, glyphs: Seq<GlyphPixel>)
        requires
            distance(self.x1 as int, self.x2 as int) == distance(self.y1 as int, self.y2 as int),
            !self.is_end(x, y),
        ensures
            self.paint(under, x, y, glyphs) == if self.on_segment(x, y) {
                self.color.over(under)
            } else {
                under
            },
    {
        let (m0, n0, m1, n1) = self.ends();
        let run = self.run();
        let rise = self.rise();
        let k = x - m0;
        assert(!self.steep());
        assert(rise == run || rise == -run);
        if m0 < x < m1 {
            if rise == run {
                lemma_fundamental_div_mod_converse(k * rise, run, k, 0);
            } else {
                assert(k * rise == (-k) * run) by (nonlinear_arith)
                    requires
                        rise == -run,
                ;
                lemma_fundamental_div_mod_converse(k * rise, run, -k, 0);
            }
            self.lemma_exact_crossing(under, x, y);
        }
        let dx = self.x2 - self.x1;
        let dy = self.y2 - self.y1;
        assert(dy == dx || dy == -dx);
        assert((x - self.x1) * dx == (y - self.y1) * dx <==> (dx == 0 || x - self.x1 == y
            - self.y1)) by (nonlinear_arith);
        assert((x - self.x1) * (-dx) == (y - self.y1) * dx <==> (dx == 0 || -(x - self.x1) == y
            - self.y1)) by (nonlinear_arith);
    }
}

} // verus!
