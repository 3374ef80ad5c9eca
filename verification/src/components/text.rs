//! Text, composited from the coverage of its rasterised glyphs.
//!
//! Shaping the glyphs of a font is not done here: the caller hands in one
//! `GlyphPixel` for every pixel that the glyphs touch, each with its offset
//! from the text's origin.

use vstd::prelude::*;
use crate::canvas::Canvas;
use crate::components::{ComponentTrait, GlyphPixel};
use crate::config::Config;
use crate::error::CustomError;
use crate::rgba::{lemma_opaque_over, lemma_over_itself, lemma_same_channels, Rgba};

verus! {

/// A line of text whose origin is the pixel `(x, y)`.
pub struct Text {
    /// Column of the origin.
    pub x: u32,
    /// Row of the origin.
    pub y: u32,
    /// Font size in pixels.
    pub size: u32,
    /// The characters to draw.
    pub text: &'static str,
    /// Fill colour.
    pub color: Rgba,
    /// Colour and width of the outline, if the text has one.
    pub border: Option<(Rgba, u32)>,
}

/// The colour of the pixel `(x, y)` after the glyph pixels were composited
/// in `color`, in their order, with the origin at `(ox, oy)`, where `under`
/// is the pixel's colour before.
pub open spec fn stamped(
    under: Rgba,
    glyphs: Seq<GlyphPixel>,
    color: Rgba,
    ox: int,
    oy: int,
    x: int,
    y: int,
) -> Rgba
    decreases glyphs.len(),
{
    if glyphs.len() == 0 {
        under
    } else {
        let before = stamped(under, glyphs.drop_last(), color, ox, oy, x, y);
        let glyph = glyphs.last();
        if ox + glyph.dx == x && oy + glyph.dy == y {
            color.covered(glyph.coverage as int, 255).over(before)
        } else {
            before
        }
    }
}

/// The colour of the pixel `(x, y)` after the first `passes` passes of the
/// outline. Pass `i` composites the glyphs four times in `color`, with the
/// origin moved by `i` pixels to the right, to the left, down and up.
pub open spec fn outlined(
    under: Rgba,
    glyphs: Seq<GlyphPixel>,
    color: Rgba,
    passes: int,
    ox: int,
    oy: int,
    x: int,
    y: int,
) -> Rgba
    decreases passes,
{
    if passes <= 0 {
        under
    } else {
        let i = passes - 1;
        let before = outlined(under, glyphs, color, i, ox, oy, x, y);
        let right = stamped(before, glyphs, color, ox + i, oy, x, y);
        let left = stamped(right, glyphs, color, ox - i, oy, x, y);
        let down = stamped(left, glyphs, color, ox, oy + i, x, y);
        stamped(down, glyphs, color, ox, oy - i, x, y)
    }
}

/// Composites every glyph pixel in `color`, at its coverage, with the
/// origin at `position`. Pixels that fall outside the canvas are skipped.
pub fn render_text(
    canvas: &mut Canvas,
    glyphs: &Vec<GlyphPixel>,
    color: Rgba,
    position: (i64, i64),
)
    requires
        old(canvas).wf(),
    ensures
        final(canvas).wf(),
        final(canvas).same_size(old(canvas)),
        forall|p: int, q: int|
            old(canvas).contains(p, q) ==> #[trigger] final(canvas).at(p, q) == stamped(
                old(canvas).at(p, q),
                glyphs@,
                color,
                position.0 as int,
                position.1 as int,
                p,
                q,
            ),
{
    let width: u32 = canvas.width();
    let height: u32 = canvas.height();
    let mut k: usize = 0;
    while k < glyphs.len()
        invariant
            old(canvas).wf(),
            canvas.wf(),
            canvas.same_size(old(canvas)),
            width == canvas.w(),
            height == canvas.h(),
            k <= glyphs@.len(),
            forall|p: int, q: int|
                old(canvas).contains(p, q) ==> #[trigger] canvas.at(p, q) == stamped(
                    old(canvas).at(p, q),
                    glyphs@.take(k as int),
                    color,
                    position.0 as int,
                    position.1 as int,
                    p,
                    q,
                ),
        decreases glyphs@.len() - k,
    {
        let glyph = glyphs[k];
        let px: i128 = position.0 as i128 + glyph.dx as i128;
        let py: i128 = position.1 as i128 + glyph.dy as i128;
        let ghost before = *canvas;
        if 0 <= px && px < width as i128 && 0 <= py && py < height as i128 {
            let shade = color.with_coverage(glyph.coverage as u32, 255);
            canvas.composite(px as u32, py as u32, shade);
        }
        proof {
            assert(glyphs@.take(k + 1).drop_last() =~= glyphs@.take(k as int));
            assert(glyphs@.take(k + 1).last() == glyph);
            assert forall|p: int, q: int| old(canvas).contains(p, q) implies #[trigger] canvas.at(
                p,
                q,
            ) == stamped(
                old(canvas).at(p, q),
                glyphs@.take(k + 1),
                color,
                position.0 as int,
                position.1 as int,
                p,
                q,
            ) by {
                assert(before.contains(p, q));
            }
        }
        k = k + 1;
    }
    proof {
        assert(glyphs@.take(k as int) =~= glyphs@);
    }
}

impl Text {
    /// A text of the given origin, size, characters, colour and outline.
    pub fn new(
        x: u32,
        y: u32,
        size: u32,
        text: &'static str,
        color: Rgba,
        border: Option<(Rgba, u32)>,
    ) -> (made: Text)
        ensures
            made == (Text { x, y, size, text, color, border }),
    {
        Text { x, y, size, text, color, border }
    }

    /// The colour of the pixel `(x, y)` once the outline is drawn, if there
    /// is one.
    pub open spec fn framed(self, under: Rgba, x: int, y: int, glyphs: Seq<GlyphPixel>) -> Rgba {
        match self.border {
            Some((color, width)) => outlined(
                under,
                glyphs,
                color,
                width as int,
                self.x as int,
                self.y as int,
                x,
                y,
            ),
            None => under,
        }
    }
}

impl ComponentTrait for Text {
    open spec fn refusal(&self, config: Config, width: int, height: int) -> Option<CustomError> {
        if config.font_path is None {
            Some(CustomError::NoFontProvided)
        } else {
            None
        }
    }

    open spec fn paint(&self, under: Rgba, x: int, y: int, glyphs: Seq<GlyphPixel>) -> Rgba {
        stamped(
            self.framed(under, x, y, glyphs),
            glyphs,
            self.color,
            self.x as int,
            self.y as int,
            x,
            y,
        )
    }

    /// Draws the outline, if there is one, and then the text over it. Fails
    /// with `NoFontProvided`, before writing anything, if the configuration
    /// names no font. What falls outside the canvas is clipped.
    fn draw(&self, config: Config, canvas: &mut Canvas, glyphs: &Vec<GlyphPixel>) -> (res: Result<
        (),
        CustomError,
    >) {
        if config.font_path.is_none() {
            return Err(CustomError::NoFontProvided);
        }
        let x: i64 = self.x as i64;
        let y: i64 = self.y as i64;
        match self.border {
            Some((color, width)) => {
                let mut i: u32 = 0;
                while i < width
                    invariant
                        old(canvas).wf(),
                        canvas.wf(),
                        canvas.same_size(old(canvas)),
                        x == self.x,
                        y == self.y,
                        i <= width,
                        forall|p: int, q: int|
                            old(canvas).contains(p, q) ==> #[trigger] canvas.at(p, q) == outlined(
                                old(canvas).at(p, q),
                                glyphs@,
                                color,
                                i as int,
                                x as int,
                                y as int,
                                p,
                                q,
                            ),
                    decreases width - i,
                {
                    let ghost before = *canvas;
                    render_text(canvas, glyphs, color, (x + i as i64, y));
                    let ghost right = *canvas;
                    render_text(canvas, glyphs, color, (x - i as i64, y));
                    let ghost left = *canvas;
                    render_text(canvas, glyphs, color, (x, y + i as i64));
                    let ghost down = *canvas;
                    render_text(canvas, glyphs, color, (x, y - i as i64));
                    proof {
                        assert forall|p: int, q: int|
                            old(canvas).contains(p, q) implies #[trigger] canvas.at(p, q)
                            == outlined(
                            old(canvas).at(p, q),
                            glyphs@,
                            color,
                            i + 1,
                            x as int,
                            y as int,
                            p,
                            q,
                        ) by {
                            assert(before.contains(p, q));
                            assert(right.contains(p, q));
                            assert(left.contains(p, q));
                            assert(down.contains(p, q));
                        }
                    }
                    i = i + 1;
                }
            },
            None => {},
        }
        let ghost framed = *canvas;
        render_text(canvas, glyphs, self.color, (x, y));
        proof {
            assert forall|p: int, q: int| old(canvas).contains(p, q) implies #[trigger] canvas.at(
                p,
                q,
            ) == self.paint(old(canvas).at(p, q), p, q, glyphs@) by {
                assert(framed.contains(p, q));
            }
        }
        Ok(())
    }
}

/// Whether the glyph pixel lands on `(x, y)` when the origin is `(ox, oy)`.
pub open spec fn lands(glyph: GlyphPixel, ox: int, oy: int, x: int, y: int) -> bool {
    ox + glyph.dx == x && oy + glyph.dy == y
}

/// Whether some glyph pixel lands on `(x, y)`.
pub open spec fn touches(glyphs: Seq<GlyphPixel>, ox: int, oy: int, x: int, y: int) -> bool {
    exists|k: int| 0 <= k < glyphs.len() && lands(#[trigger] glyphs[k], ox, oy, x, y)
}

/// Whether some glyph pixel of full coverage lands on `(x, y)`.
pub open spec fn fills(glyphs: Seq<GlyphPixel>, ox: int, oy: int, x: int, y: int) -> bool {
    exists|k: int|
        0 <= k < glyphs.len() && lands(#[trigger] glyphs[k], ox, oy, x, y) && glyphs[k].coverage
            == 255
}

/// Whether pass `i` of the outline lays a glyph pixel of full coverage on
/// `(x, y)`.
pub open spec fn pass_fills(
    glyphs: Seq<GlyphPixel>,
    i: int,
    ox: int,
    oy: int,
    x: int,
    y: int,
) -> bool {
    ||| fills(glyphs, ox + i, oy, x, y)
    ||| fills(glyphs, ox - i, oy, x, y)
    ||| fills(glyphs, ox, oy + i, x, y)
    ||| fills(glyphs, ox, oy - i, x, y)
}

/// Whether one of the first `passes` passes of the outline lays a glyph
/// pixel of full coverage on `(x, y)`.
pub open spec fn ring(
    glyphs: Seq<GlyphPixel>,
    passes: int,
    ox: int,
    oy: int,
    x: int,
    y: int,
) -> bool {
    exists|i: int| 0 <= i < passes && #[trigger] pass_fills(glyphs, i, ox, oy, x, y)
}

/// A pixel that no glyph pixel lands on stays as it was.
pub proof fn lemma_stamp_misses(
    under: Rgba,
    glyphs: Seq<GlyphPixel>,
    color: Rgba,
    ox: int,
    oy: int,
    x: int,
    y: int,
)
    requires
        !touches(glyphs, ox, oy, x, y),
    ensures
        stamped(under, glyphs, color, ox, oy, x, y) == under,
    decreases glyphs.len(),
{
    if glyphs.len() > 0 {
        let rest = glyphs.drop_last();
        assert(!lands(glyphs[glyphs.len() - 1], ox, oy, x, y));
        assert forall|k: int| 0 <= k < rest.len() implies !lands(#[trigger] rest[k], ox, oy, x, y) by {
            assert(rest[k] == glyphs[k]);
        }
        lemma_stamp_misses(under, rest, color, ox, oy, x, y);
    }
}

/// A pixel that already has the opaque colour keeps it.
pub proof fn lemma_stamp_keeps(
    glyphs: Seq<GlyphPixel>,
    color: Rgba,
    ox: int,
    oy: int,
    x: int,
    y: int,
)
    requires
        color.a() == 255,
    ensures
        stamped(color, glyphs, color, ox, oy, x, y) == color,
    decreases glyphs.len(),
{
    if glyphs.len() > 0 {
        lemma_stamp_keeps(glyphs.drop_last(), color, ox, oy, x, y);
        lemma_over_itself(color, color.covered(glyphs.last().coverage as int, 255));
    }
}

/// A pixel on which a glyph pixel of full coverage lands takes the opaque
/// colour, whatever it was and whatever else lands on it.
pub proof fn lemma_stamp_fills(
    under: Rgba,
    glyphs: Seq<GlyphPixel>,
    color: Rgba,
    ox: int,
    oy: int,
    x: int,
    y: int,
)
    requires
        color.a() == 255,
        fills(glyphs, ox, oy, x, y),
    ensures
        stamped(under, glyphs, color, ox, oy, x, y) == color,
    decreases glyphs.len(),
{
    let k = choose|k: int|
        0 <= k < glyphs.len() && lands(#[trigger] glyphs[k], ox, oy, x, y) && glyphs[k].coverage
            == 255;
    let rest = glyphs.drop_last();
    let before = stamped(under, rest, color, ox, oy, x, y);
    let shade = color.covered(glyphs.last().coverage as int, 255);
    if k == glyphs.len() - 1 {
        assert(color.a() * 255 / 255 == color.a());
        lemma_same_channels(shade, color);
        lemma_opaque_over(color, before);
    } else {
        assert(rest[k] == glyphs[k]);
        lemma_stamp_fills(under, rest, color, ox, oy, x, y);
        lemma_over_itself(color, shade);
    }
}

/// A pixel that already has the opaque outline colour keeps it through
/// every pass of the outline.
pub proof fn lemma_outline_keeps(
    glyphs: Seq<GlyphPixel>,
    color: Rgba,
    passes: int,
    ox: int,
    oy: int,
    x: int,
    y: int,
)
    requires
        color.a() == 255,
    ensures
        outlined(color, glyphs, color, passes, ox, oy, x, y) == color,
    decreases passes,
{
    if passes > 0 {
        let i = passes - 1;
        lemma_outline_keeps(glyphs, color, i, ox, oy, x, y);
        lemma_stamp_keeps(glyphs, color, ox + i, oy, x, y);
        lemma_stamp_keeps(glyphs, color, ox - i, oy, x, y);
        lemma_stamp_keeps(glyphs, color, ox, oy + i, x, y);
        lemma_stamp_keeps(glyphs, color, ox, oy - i, x, y);
    }
}

/// A pixel of the ring takes the opaque outline colour.
pub proof fn lemma_outline_fills(
    under: Rgba,
    glyphs: Seq<GlyphPixel>,
    color: Rgba,
    passes: int,
    ox: int,
    oy: int,
    x: int,
    y: int,
)
    requires
        color.a() == 255,
        ring(glyphs, passes, ox, oy, x, y),
    ensures
        outlined(under, glyphs, color, passes, ox, oy, x, y) == color,
    decreases passes,
{
    let hit = choose|i: int| 0 <= i < passes && #[trigger] pass_fills(glyphs, i, ox, oy, x, y);
    let i = passes - 1;
    let before = outlined(under, glyphs, color, i, ox, oy, x, y);
    let right = stamped(before, glyphs, color, ox + i, oy, x, y);
    let left = stamped(right, glyphs, color, ox - i, oy, x, y);
    let down = stamped(left, glyphs, color, ox, oy + i, x, y);
    if hit < i {
        assert(pass_fills(glyphs, hit, ox, oy, x, y));
        lemma_outline_fills(under, glyphs, color, i, ox, oy, x, y);
        lemma_stamp_keeps(glyphs, color, ox + i, oy, x, y);
        lemma_stamp_keeps(glyphs, color, ox - i, oy, x, y);
        lemma_stamp_keeps(glyphs, color, ox, oy + i, x, y);
        lemma_stamp_keeps(glyphs, color, ox, oy - i, x, y);
    } else if fills(glyphs, ox + i, oy, x, y) {
        lemma_stamp_fills(before, glyphs, color, ox + i, oy, x, y);
        lemma_stamp_keeps(glyphs, color, ox - i, oy, x, y);
        lemma_stamp_keeps(glyphs, color, ox, oy + i, x, y);
        lemma_stamp_keeps(glyphs, color, ox, oy - i, x, y);
    } else if fills(glyphs, ox - i, oy, x, y) {
        lemma_stamp_fills(right, glyphs, color, ox - i, oy, x, y);
        lemma_stamp_keeps(glyphs, color, ox, oy + i, x, y);
        lemma_stamp_keeps(glyphs, color, ox, oy - i, x, y);
    } else if fills(glyphs, ox, oy + i, x, y) {
        lemma_stamp_fills(left, glyphs, color, ox, oy + i, x, y);
        lemma_stamp_keeps(glyphs, color, ox, oy - i, x, y);
    } else {
        lemma_stamp_fills(down, glyphs, color, ox, oy - i, x, y);
    }
}

impl Text {
    /// The fill lies on top: where the fill colour is opaque and a glyph
    /// pixel of full coverage lands on `(x, y)`, that pixel ends in the fill
    /// colour, whatever the outline left there.
    pub proof fn lemma_fill_on_top(self, under: Rgba, x: int, y: int, glyphs: Seq<GlyphPixel>)
        requires
            self.color.a() == 255,
            fills(glyphs, self.x as int, self.y as int, x, y),
        ensures
            self.paint(under, x, y, glyphs) == self.color,
    {
        lemma_stamp_fills(
            self.framed(under, x, y, glyphs),
            glyphs,
            self.color,
            self.x as int,
            self.y as int,
            x,
            y,
        );
    }

    /// The outline shows around the glyphs: where the outline colour is
    /// opaque, a pixel of the ring that the text itself does not touch ends
    /// in the outline colour.
    pub proof fn lemma_outline_shows(self, under: Rgba, x: int, y: int, glyphs: Seq<GlyphPixel>)
        requires
            self.border matches Some((color, width)) && color.a() == 255 && ring(
                glyphs,
                width as int,
                self.x as int,
                self.y as int,
                x,
                y,
            ),
            !touches(glyphs, self.x as int, self.y as int, x, y),
        ensures
            self.border matches Some((color, width)) && self.paint(under, x, y, glyphs) == color,
    {
        let (color, width) = self.border->Some_0;
        lemma_outline_fills(under, glyphs, color, width as int, self.x as int, self.y as int, x, y);
        lemma_stamp_misses(color, glyphs, self.color, self.x as int, self.y as int, x, y);
    }
}

} // verus!
