//! The drawable primitives and what they share.

#![allow(non_snake_case)]

use vstd::prelude::*;
use crate::canvas::Canvas;
use crate::config::Config;
use crate::error::CustomError;
use crate::rgba::Rgba;

pub mod circle;
pub mod line;
pub mod rectangle;
pub mod text;

use circle::Circle;
use line::Line;
use rectangle::Rectangle;
use text::Text;

verus! {

/// One pixel of rasterised text: its offset from the text's origin and the
/// fraction `coverage / 255` of it that the glyph covers.
#[derive(Debug, Clone, Copy, PartialEq, Eq)]
pub struct GlyphPixel {
    /// Columns to the right of the origin.
    pub dx: i32,
    /// Rows below the origin.
    pub dy: i32,
    /// Covered part of the pixel, in 255ths.
    pub coverage: u8,
}

/// What every primitive can do: say when it refuses a canvas, say what it
/// does to each pixel, and draw itself accordingly.
pub trait ComponentTrait {
    /// The failure with which drawing on a canvas of the given size is
    /// refused, if it is.
    spec fn refusal(&self, config: Config, width: int, height: int) -> Option<CustomError>;

    /// The colour of the pixel at `(x, y)` after drawing, where `under` is
    /// its colour before and `glyphs` the rasterised text.
    spec fn paint(&self, under: Rgba, x: int, y: int, glyphs: Seq<GlyphPixel>) -> Rgba;

    /// Draws the primitive: either it is refused and the canvas stays as it
    /// was, or every pixel is painted.
    fn draw(&self, config: Config, canvas: &mut Canvas, glyphs: &Vec<GlyphPixel>) -> (res: Result<
        (),
        CustomError,
    >)
        requires
            old(canvas).wf(),
        ensures
            final(canvas).wf(),
            final(canvas).same_size(old(canvas)),
            match self.refusal(config, old(canvas).w(), old(canvas).h()) {
                Some(e) => res == Err::<(), CustomError>(e) && *final(canvas) == *old(canvas),
                None => res is Ok && forall|x: int, y: int|
                    old(canvas).contains(x, y) ==> #[trigger] final(canvas).at(x, y) == self.paint(
                        old(canvas).at(x, y),
                        x,
                        y,
                        glyphs@,
                    ),
            },
    ;
}

/// Any one of the drawable primitives.
pub enum Component {
    /// A filled circle.
    Circle {
        /// Column of the centre.
        cx: u32,
        /// Row of the centre.
        cy: u32,
        /// Radius in pixels.
        r: u32,
        /// Fill colour.
        color: Rgba,
    },
    /// A filled rectangle.
    Rectangle {
        /// Height in pixels.
        h: u32,
        /// Width in pixels.
        w: u32,
        /// Column of the top-left corner.
        x: u32,
        /// Row of the top-left corner.
        y: u32,
        /// Fill colour.
        color: Rgba,
    },
    /// A line between two pixels.
    Line {
        /// Column of the first endpoint.
        x1: u32,
        /// Row of the first endpoint.
        y1: u32,
        /// Column of the second endpoint.
        x2: u32,
        /// Row of the second endpoint.
        y2: u32,
        /// Colour of the line.
        color: Rgba,
    },
    /// A line of text.
    Text {
        /// Column of the origin.
        x: u32,
        /// Row of the origin.
        y: u32,
        /// Font size in pixels.
        size: u32,
        /// The characters to draw.
        text: &'static str,
        /// Fill colour.
        color: Rgba,
        /// Colour and width of the outline, if the text has one.
        border: Option<(Rgba, u32)>,
    },
}

/// Makes components.
pub struct Components;

impl Components {
    /// A circle around `(cx, cy)` with the radius `r`.
    pub fn Circle(cx: u32, cy: u32, r: u32, color: Rgba) -> (component: Component)
        ensures
            component == (Component::Circle { cx, cy, r, color }),
    {
        Component::Circle { cx, cy, r, color }
    }

    /// A rectangle `w` wide and `h` high with its top-left corner at
    /// `(x, y)`.
    pub fn Rectangle(h: u32, w: u32, x: u32, y: u32, color: Rgba) -> (component: Component)
        ensures
            component == (Component::Rectangle { h, w, x, y, color }),
    {
        Component::Rectangle { h, w, x, y, color }
    }

    /// A line from `(x1, y1)` to `(x2, y2)`.
    pub fn Line(x1: u32, y1: u32, x2: u32, y2: u32, color: Rgba) -> (component: Component)
        ensures
            component == (Component::Line { x1, y1, x2, y2, color }),
    {
        Component::Line { x1, y1, x2, y2, color }
    }

    /// A text with its origin at `(x, y)`, with an outline if `border`
    /// gives its colour and width.
    pub fn Text(
        x: u32,
        y: u32,
        size: u32,
        text: &'static str,
        color: Rgba,
        border: Option<(Rgba, u32)>,
    ) -> (component: Component)
        ensures
            component == (Component::Text { x, y, size, text, color, border }),
    {
        Component::Text { x, y, size, text, color, border }
    }
}

impl ComponentTrait for Component {
    open spec fn refusal(&self, config: Config, width: int, height: int) -> Option<CustomError> {
        match *self {
            Component::Circle { cx, cy, r, color } => (Circle { cx, cy, r, color }).refusal(
                config,
                width,
                height,
            ),
            Component::Rectangle { h, w, x, y, color } => (Rectangle { h, w, x, y, color }).refusal(
                config,
                width,
                height,
            ),
            Component::Line { x1, y1, x2, y2, color } => (Line { x1, y1, x2, y2, color }).refusal(
                config,
                width,
                height,
            ),
            Component::Text { x, y, size, text, color, border } => (Text {
                x,
                y,
                size,
                text,
                color,
                border,
            }).refusal(config, width, height),
        }
    }

    open spec fn paint(&self, under: Rgba, x: int, y: int, glyphs: Seq<GlyphPixel>) -> Rgba {
        match *self {
            Component::Circle { cx, cy, r, color } => (Circle { cx, cy, r, color }).paint(
                under,
                x,
                y,
                glyphs,
            ),
            Component::Rectangle { h, w, x: left, y: top, color } => (Rectangle {
                h,
                w,
                x: left,
                y: top,
                color,
            }).paint(under, x, y, glyphs),
            Component::Line { x1, y1, x2, y2, color } => (Line { x1, y1, x2, y2, color }).paint(
                under,
                x,
                y,
                glyphs,
            ),
            Component::Text { x: left, y: top, size, text, color, border } => (Text {
                x: left,
                y: top,
                size,
                text,
                color,
                border,
            }).paint(under, x, y, glyphs),
        }
    }

    /// Draws whichever primitive this is.
    fn draw(&self, config: Config, canvas: &mut Canvas, glyphs: &Vec<GlyphPixel>) -> (res: Result<
        (),
        CustomError,
    >) {
        match *self {
            Component::Circle { cx, cy, r, color } => {
                let circle = Circle::new(cx, cy, r, color);
                circle.draw(config, canvas, glyphs)
            },
            Component::Rectangle { h, w, x, y, color } => {
                let rectangle = Rectangle::new(h, w, x, y, color);
                rectangle.draw(config, canvas, glyphs)
            },
            Component::Line { x1, y1, x2, y2, color } => {
                let line = Line::new(x1, y1, x2, y2, color);
                line.draw(config, canvas, glyphs)
            },
            Component::Text { x, y, size, text, color, border } => {
                let text = Text::new(x, y, size, text, color, border);
                text.draw(config, canvas, glyphs)
            },
        }
    }
}

} // verus!
