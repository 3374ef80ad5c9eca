//! A scene that owns its components and draws on an unframed canvas.

use vstd::prelude::*;
use crate::canvas::Canvas;
use crate::components::{Component, GlyphPixel};
use crate::config::Config;
use crate::error::CustomError;
use crate::images::{draw_scene, scene_paint, scene_refusal};

verus! {

/// A canvas in the making, like `Image`, but it keeps the components
/// themselves and never frames the canvas.
pub struct Buffer {
    config: Option<Config>,
    image_buffer: Option<Canvas>,
    components: Vec<Component>,
}

impl Buffer {
    /// The settings, once given.
    pub closed spec fn settings(&self) -> Option<Config> {
        self.config
    }

    /// The prepared canvas, once `init` has run.
    pub closed spec fn surface(&self) -> Option<Canvas> {
        self.image_buffer
    }

    /// The components in the order in which they will be drawn.
    pub closed spec fn scene(&self) -> Seq<Component> {
        self.components@
    }

    /// The prepared canvas, if there is one, is well formed.
    pub closed spec fn wf(&self) -> bool {
        self.image_buffer matches Some(canvas) ==> canvas.wf()
    }

    /// A buffer without settings, canvas or components.
    pub fn new() -> (buffer: Buffer)
        ensures
            buffer.wf(),
            buffer.settings() is None,
            buffer.surface() is None,
            buffer.scene().len() == 0,
    {
        Buffer { config: None, image_buffer: None, components: Vec::new() }
    }

    /// Sets the settings.
    pub fn config(&mut self, config: Config) -> (buffer: &mut Buffer)
        requires
            old(self).wf(),
        ensures
            buffer.wf(),
            buffer.settings() == Some(config),
            buffer.surface() == old(self).surface(),
            buffer.scene() == old(self).scene(),
            *final(self) == *final(buffer),
    {
        self.config = Some(config);
        self
    }

    /// Prepares the canvas: fills it with the background colour. Fails with
    /// `NoConfigProvided` where no settings were given.
    pub fn init(&mut self) -> (res: Result<&mut Buffer, CustomError>)
        requires
            old(self).wf(),
            old(self).settings() matches Some(config) ==> config.valid(),
        ensures
            old(self).settings() is None ==> (res matches Err(e) && e
                == CustomError::NoConfigProvided && *final(self) == *old(self)),
            old(self).settings() matches Some(config) ==> (res matches Ok(buffer) && {
                &&& buffer.wf()
                &&& *final(self) == *final(buffer)
                &&& buffer.settings() == old(self).settings()
                &&& buffer.scene() == old(self).scene()
                &&& buffer.surface() matches Some(canvas) && {
                    &&& canvas.wf()
                    &&& canvas.w() == config.width
                    &&& canvas.h() == config.height
                    &&& forall|x: int, y: int|
                        canvas.contains(x, y) ==> #[trigger] canvas.at(x, y) == config.color
                }
            }),
    {
        let config = match self.config {
            Some(config) => config,
            None => { return Err(CustomError::NoConfigProvided); },
        };
        self.image_buffer = Some(Canvas::new(config.width, config.height, config.color));
        Ok(self)
    }

    /// Appends one component to the scene.
    pub fn add_component(&mut self, component: Component) -> (buffer: &mut Buffer)
        requires
            old(self).wf(),
        ensures
            buffer.wf(),
            buffer.settings() == old(self).settings(),
            buffer.surface() == old(self).surface(),
            buffer.scene() == old(self).scene().push(component),
            *final(self) == *final(buffer),
    {
        self.components.push(component);
        self
    }

    /// Appends the components to the scene, in their order.
    pub fn add_components(&mut self, components: Vec<Component>) -> (buffer: &mut Buffer)
        requires
            old(self).wf(),
        ensures
            buffer.wf(),
            buffer.settings() == old(self).settings(),
            buffer.surface() == old(self).surface(),
            buffer.scene() == old(self).scene() + components@,
            *final(self) == *final(buffer),
    {
        let mut more = components;
        self.components.append(&mut more);
        self
    }

    /// Renders the scene on a copy of the prepared canvas and returns that
    /// copy, as `Image::draw` does. `glyphs[i]` is the rasterised text of
    /// the `i`-th component.
    ///
    /// Fails with `ThereIsNoComponent` where the scene is empty, with
    /// `NoConfigProvided` where the settings or the canvas are missing, and
    /// else with the failure of the first component that refuses.
    pub fn draw(&self, glyphs: &Vec<Vec<GlyphPixel>>) -> (res: Result<Canvas, CustomError>)
        requires
            self.wf(),
        ensures
            self.scene().len() == 0 ==> res == Err::<Canvas, CustomError>(
                CustomError::ThereIsNoComponent,
            ),
            self.scene().len() > 0 && (self.settings() is None || self.surface() is None) ==> res
                == Err::<Canvas, CustomError>(CustomError::NoConfigProvided),
            self.scene().len() > 0 ==> (self.settings() matches Some(config) ==> (self.surface()
                matches Some(canvas) ==> match scene_refusal(
                self.scene(),
                config,
                canvas.w(),
                canvas.h(),
                self.scene().len() as int,
            ) {
                Some(e) => res == Err::<Canvas, CustomError>(e),
                None => (res matches Ok(drawn) && drawn.wf() && drawn.same_size(&canvas) && forall|
                    x: int,
                    y: int,
                |
                    canvas.contains(x, y) ==> #[trigger] drawn.at(x, y) == scene_paint(
                        self.scene(),
                        canvas.at(x, y),
                        x,
                        y,
                        glyphs@,
                        self.scene().len() as int,
                    )),
            })),
    {
        if self.components.len() == 0 {
            return Err(CustomError::ThereIsNoComponent);
        }
        let config = match self.config {
            Some(config) => config,
            None => { return Err(CustomError::NoConfigProvided); },
        };
        let canvas = match &self.image_buffer {
            Some(canvas) => canvas,
            None => { return Err(CustomError::NoConfigProvided); },
        };
        let mut borrowed: Vec<&Component> = Vec::new();
        let mut i: usize = 0;
        while i < self.components.len()
            invariant
                i <= self.components@.len(),
                borrowed@.len() == i,
                forall|k: int| 0 <= k < i ==> *borrowed@[k] == self.components@[k],
            decreases self.components@.len() - i,
        {
            borrowed.push(&self.components[i]);
            i = i + 1;
        }
        proof {
            assert(borrowed@.map_values(|c: &Component| *c) =~= self.components@);
        }
        draw_scene(canvas, config, &borrowed, glyphs)
    }
}

} // verus!
