//! Rasterises circles, rectangles, lines and text onto an in-memory RGBA
//! canvas with source-over alpha compositing.
//!
//! A scene is an `Image`: it is given a `Config`, prepares its `Canvas`, takes
//! components from `Components`, and draws them in order, later ones over
//! earlier ones. What each primitive does to a canvas is stated pixel by
//! pixel: `ComponentTrait::paint` gives the colour of a pixel after drawing
//! from its colour before.
//!
//! All arithmetic is exact and in integers. A coverage is a fraction
//! `numerator / denominator`; the alpha at which a colour is laid on a pixel
//! is the colour's alpha times the pixel's coverage, rounded down.
//!
//! Writing the canvas to a file and rasterising the glyphs of a font are left
//! to the caller: `Image::draw` returns the canvas, and takes the glyphs'
//! coverage as plain values.

pub mod buffer;
pub mod canvas;
pub mod colors;
pub mod components;
pub mod config;
pub mod error;
pub mod images;
pub mod rgba;

pub use buffer::Buffer;
pub use canvas::Canvas;
pub use components::{Component, ComponentTrait, Components, GlyphPixel};
pub use config::Config;
pub use error::CustomError;
pub use images::Image;
pub use rgba::Rgba;
