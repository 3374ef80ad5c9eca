//! Settings of the canvas that a scene is drawn on.

use vstd::prelude::*;
use crate::rgba::Rgba;

verus! {

/// The size and look of the canvas, and where its collaborators find their
/// files.
#[derive(Debug, Clone, Copy)]
pub struct Config {
    /// Width of the canvas in pixels.
    pub width: u32,
    /// Height of the canvas in pixels.
    pub height: u32,
    /// Background colour.
    pub color: Rgba,
    /// Colour of the one-pixel frame around the canvas, if it has one.
    pub border: Option<Rgba>,
    /// Where the finished image is written.
    pub path: &'static str,
    /// Where the font is read from, if text is to be drawn.
    pub font_path: Option<&'static str>,
}

impl Config {
    /// A canvas can be made from these settings: it has at least one pixel
    /// and its buffer fits in memory.
    pub open spec fn valid(self) -> bool {
        &&& self.width > 0
        &&& self.height > 0
        &&& 4 * (self.width * self.height) <= usize::MAX
    }

    /// Collects the settings.
    pub fn new(
        width: u32,
        height: u32,
        color: Rgba,
        border: Option<Rgba>,
        path: &'static str,
        font_path: Option<&'static str>,
    ) -> (config: Config)
        ensures
            config == (Config { width, height, color, border, path, font_path }),
    {
        Config { width, height, color, border, path, font_path }
    }
}

} // verus!
