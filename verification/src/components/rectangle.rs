//! Axis-aligned filled rectangles.

use vstd::prelude::*;
use crate::canvas::Canvas;
use crate::components::{ComponentTrait, GlyphPixel};
use crate::config::Config;
use crate::error::CustomError;
use crate::rgba::Rgba;

verus! {

/// A filled rectangle `w` wide and `h` high whose top-left pixel is `(x, y)`.
#[derive(Clone, Copy)]
pub struct Rectangle {
    /// Height in pixels.
    pub h: u32,
    /// Width in pixels.
    pub w: u32,
    /// Column of the top-left corner.
    pub x: u32,
    /// Row of the top-left corner.
    pub y: u32,
    /// Fill colour.
    pub color: Rgba,
}

impl Rectangle {
    /// A rectangle of the given height, width, corner and colour.
    pub fn new(h: u32, w: u32, x: u32, y: u32, color: Rgba) -> (rectangle: Rectangle)
        ensures
            rectangle == (Rectangle { h, w, x, y, color }),
    {
        Rectangle { h, w, x, y, color }
    }

    /// Whether the rectangle covers the pixel `(px, py)`.
    pub open spec fn covers(self, px: int, py: int) -> bool {
        self.x <= px < self.x + self.w && self.y <= py < self.y + self.h
    }

    /// Whether every covered pixel lies on a canvas of the given size.
    pub open spec fn fits(self, width: int, height: int) -> bool {
        self.w == 0 || self.h == 0 || (self.x + self.w <= width && self.y + self.h <= height)
    }
}

impl ComponentTrait for Rectangle {
    open spec fn refusal(&self, config: Config, width: int, height: int) -> Option<CustomError> {
        if self.fits(width, height) {
            None
        } else {
            Some(CustomError::OutOfCanvas)
        }
    }

    open spec fn paint(&self, under: Rgba, x: int, y: int, glyphs: Seq<GlyphPixel>) -> Rgba {
        if self.covers(x, y) {
            self.color.over(under)
        } else {
            under
        }
    }

    /// Composites the fill colour over every covered pixel, or fails with
    /// `OutOfCanvas` before writing anything if a covered pixel lies outside.
    fn draw(&self, config: Config, canvas: &mut Canvas, glyphs: &Vec<GlyphPixel>) -> (res: Result<
        (),
        CustomError,
    >) {
        if self.w == 0 || self.h == 0 {
            return Ok(());
        }
        let right: u64 = self.x as u64 + self.w as u64;
        let bottom: u64 = self.y as u64 + self.h as u64;
        let width: u32 = canvas.width();
        let height: u32 = canvas.height();
        if right > width as u64 || bottom > height as u64 {
            return Err(CustomError::OutOfCanvas);
        }
        let mut x: u32 = self.x;
        while (x as u64) < right
            invariant
                old(canvas).wf(),
                canvas.wf(),
                canvas.same_size(old(canvas)),
                self.x <= x <= right,
                right == self.x + self.w,
                bottom == self.y + self.h,
                right <= width == canvas.w(),
                bottom <= height == canvas.h(),
                forall|p: int, q: int|
                    canvas.contains(p, q) ==> #[trigger] canvas.at(p, q) == if self.covers(p, q)
                        && p < x {
                        self.color.over(old(canvas).at(p, q))
                    } else {
                        old(canvas).at(p, q)
                    },
            decreases right - x,
        {
            let mut y: u32 = self.y;
            while (y as u64) < bottom
                invariant
                    old(canvas).wf(),
                    canvas.wf(),
                    canvas.same_size(old(canvas)),
                    self.x <= x < right,
                    self.y <= y <= bottom,
                    right == self.x + self.w,
                    bottom == self.y + self.h,
                    right <= width == canvas.w(),
                    bottom <= height == canvas.h(),
                    forall|p: int, q: int|
                        canvas.contains(p, q) ==> #[trigger] canvas.at(p, q) == if self.covers(
                            p,
                            q,
                        ) && (p < x || (p == x && q < y)) {
                            self.color.over(old(canvas).at(p, q))
                        } else {
                            old(canvas).at(p, q)
                        },
                decreases bottom - y,
            {
                canvas.composite(x, y, self.color);
                y = y + 1;
            }
            x = x + 1;
        }
        Ok(())
    }
}

} // verus!
