//! A scene: a configured canvas and the components drawn on it in order.

use vstd::prelude::*;
use crate::canvas::Canvas;
use crate::components::{Component, ComponentTrait, GlyphPixel};
use crate::config::Config;
use crate::error::CustomError;
use crate::rgba::Rgba;

verus! {

/// The rasterised text of the `i`-th component: `glyphs[i]`, or nothing
/// where the list is too short.
pub open spec fn glyphs_of(glyphs: Seq<Vec<GlyphPixel>>, i: int) -> Seq<GlyphPixel> {
    if 0 <= i < glyphs.len() {
        glyphs[i]@
    } else {
        Seq::empty()
    }
}

/// The failure of the first among the first `n` components that refuses a
/// canvas of the given size, if one does.
pub open spec fn scene_refusal(
    scene: Seq<Component>,
    config: Config,
    width: int,
    height: int,
    n: int,
) -> Option<CustomError>
    decreases n,
{
    if n <= 0 {
        None
    } else {
        match scene_refusal(scene, config, width, height, n - 1) {
            Some(e) => Some(e),
            None => scene[n - 1].refusal(config, width, height),
        }
    }
}

/// The colour of the pixel `(x, y)` after the first `n` components were
/// drawn in order, each over what the ones before it left.
pub open spec fn scene_paint(
    scene: Seq<Component>,
    under: Rgba,
    x: int,
    y: int,
    glyphs: Seq<Vec<GlyphPixel>>,
    n: int,
) -> Rgba
    decreases n,
{
    if n <= 0 {
        under
    } else {
        scene[n - 1].paint(
            scene_paint(scene, under, x, y, glyphs, n - 1),
            x,
            y,
            glyphs_of(glyphs, n - 1),
        )
    }
}

/// The colour of the pixel `(x, y)` of a fresh canvas: the border colour on
/// the outermost ring if there is a border, the background elsewhere.
pub open spec fn fresh_pixel(config: Config, x: int, y: int) -> Rgba {
    match config.border {
        Some(border) => if x == 0 || y == 0 || x == config.width - 1 || y == config.height - 1 {
            border
        } else {
            config.color
        },
        None => config.color,
    }
}

/// Draws the components in order on a copy of `canvas` and returns the copy,
/// or the failure of the first component that refuses.
pub fn draw_scene(
    canvas: &Canvas,
    config: Config,
    components: &Vec<&Component>,
    glyphs: &Vec<Vec<GlyphPixel>>,
) -> (res: Result<Canvas, CustomError>)
    requires
        canvas.wf(),
    ensures
        match scene_refusal(
            components@.map_values(|c: &Component| *c),
            config,
            canvas.w(),
            canvas.h(),
            components@.len() as int,
        ) {
            Some(e) => res == Err::<Canvas, CustomError>(e),
            None => (res matches Ok(drawn) && drawn.wf() && drawn.same_size(canvas) && forall|
                x: int,
                y: int,
            |
                canvas.contains(x, y) ==> #[trigger] drawn.at(x, y) == scene_paint(
                    components@.map_values(|c: &Component| *c),
                    canvas.at(x, y),
                    x,
                    y,
                    glyphs@,
                    components@.len() as int,
                )),
        },
{
    let ghost scene = components@.map_values(|c: &Component| *c);
    let none: Vec<GlyphPixel> = Vec::new();
    let mut drawn = canvas.clone();
    let mut i: usize = 0;
    while i < components.len()
        invariant
            canvas.wf(),
            drawn.wf(),
            drawn.same_size(canvas),
            none@.len() == 0,
            scene == components@.map_values(|c: &Component| *c),
            i <= components@.len(),
            scene_refusal(scene, config, canvas.w(), canvas.h(), i as int) is None,
            forall|x: int, y: int|
                canvas.contains(x, y) ==> #[trigger] drawn.at(x, y) == scene_paint(
                    scene,
                    canvas.at(x, y),
                    x,
                    y,
                    glyphs@,
                    i as int,
                ),
        decreases components@.len() - i,
    {
        let component: &Component = components[i];
        let ghost before = drawn;
        let outcome = if i < glyphs.len() {
            component.draw(config, &mut drawn, &glyphs[i])
        } else {
            component.draw(config, &mut drawn, &none)
        };
        proof {
            assert(scene[i as int] == *component);
            assert(glyphs_of(glyphs@, i as int) =~= if i < glyphs@.len() {
                glyphs@[i as int]@
            } else {
                none@
            });
        }
        match outcome {
            Err(e) => {
                proof {
                    lemma_refusal_stays(scene, config, canvas.w(), canvas.h(), i + 1, scene.len() as int);
                }
                return Err(e);
            },
            Ok(()) => {},
        }
        proof {
            assert forall|x: int, y: int| canvas.contains(x, y) implies #[trigger] drawn.at(x, y)
                == scene_paint(scene, canvas.at(x, y), x, y, glyphs@, i + 1) by {
                assert(before.contains(x, y));
            }
        }
        i = i + 1;
    }
    Ok(drawn)
}

/// Once a component has refused, the scene's failure stays the same however
/// many more components are considered.
pub proof fn lemma_refusal_stays(
    scene: Seq<Component>,
    config: Config,
    width: int,
    height: int,
    n: int,
    m: int,
)
    requires
        n <= m,
        scene_refusal(scene, config, width, height, n) is Some,
    ensures
        scene_refusal(scene, config, width, height, m) == scene_refusal(
            scene,
            config,
            width,
            height,
            n,
        ),
    decreases m - n,
{
    if n < m {
        lemma_refusal_stays(scene, config, width, height, n, m - 1);
    }
}

/// A canvas in the making: its settings, its pixels once `init` has made
/// them, and the components to draw.
pub struct Image<'a> {
    config: Option<Config>,
    image_buffer: Option<Canvas>,
    components: Vec<&'a Component>,
}

impl<'a> Image<'a> {
    /// The settings, once given.
    pub closed spec fn settings(&self) -> Option<Config> {
        self.config
    }

    /// The prepared canvas, once `init` has run.
    pub closed spec fn surface(&self) -> Option<Canvas> {
        self.image_buffer
    }

    /// The components in the order in which they will be drawn.
    pub closed spec fn scene(&self) -> Seq<Component> {
        self.components@.map_values(|c: &Component| *c)
    }

    /// The prepared canvas, if there is one, is well formed.
    pub closed spec fn wf(&self) -> bool {
        self.image_buffer matches Some(canvas) ==> canvas.wf()
    }

    /// An image without settings, canvas or components.
    pub fn new() -> (image: Image<'a>)
        ensures
            image.wf(),
            image.settings() is None,
            image.surface() is None,
            image.scene().len() == 0,
    {
        Image { config: None, image_buffer: None, components: Vec::new() }
    }

    /// Sets the settings.
    pub fn config(&mut self, config: Config) -> (image: &mut Self)
        requires
            old(self).wf(),
        ensures
            image.wf(),
            image.settings() == Some(config),
            image.surface() == old(self).surface(),
            image.scene() == old(self).scene(),
            *final(self) == *final(image),
    {
        self.config = Some(config);
        self
    }

    /// Prepares the canvas: fills it with the background colour and frames
    /// it with the border colour if there is one. Fails with
    /// `NoConfigProvided` where no settings were given.
    pub fn init(&mut self) -> (res: Result<&mut Self, CustomError>)
        requires
            old(self).wf(),
            old(self).settings() matches Some(config) ==> config.valid(),
        ensures
            old(self).settings() is None ==> (res matches Err(e) && e
                == CustomError::NoConfigProvided && *final(self) == *old(self)),
            old(self).settings() matches Some(config) ==> (res matches Ok(image) && {
                &&& image.wf()
                &&& *final(self) == *final(image)
                &&& image.settings() == old(self).settings()
                &&& image.scene() == old(self).scene()
                &&& image.surface() matches Some(canvas) && {
                    &&& canvas.wf()
                    &&& canvas.w() == config.width
                    &&& canvas.h() == config.height
                    &&& forall|x: int, y: int|
                        canvas.contains(x, y) ==> #[trigger] canvas.at(x, y) == fresh_pixel(
                            config,
                            x,
                            y,
                        )
                }
            }),
    {
        let config = match self.config {
            Some(config) => config,
            None => { return Err(CustomError::NoConfigProvided); },
        };
        let mut canvas = Canvas::new(config.width, config.height, config.color);
        canvas.apply_border(config.border);
        self.image_buffer = Some(canvas);
        Ok(self)
    }

    /// Appends one component to the scene.
    pub fn add_component(&mut self, component: &'a Component) -> (image: &mut Self)
        requires
            old(self).wf(),
        ensures
            image.wf(),
            image.settings() == old(self).settings(),
            image.surface() == old(self).surface(),
            image.scene() == old(self).scene().push(*component),
            *final(self) == *final(image),
    {
        self.components.push(component);
        proof {
            assert(self.scene() =~= old(self).scene().push(*component));
        }
        self
    }

    /// Appends the components to the scene, in their order.
    pub fn add_components(&mut self, components: Vec<&'a Component>) -> (image: &mut Self)
        requires
            old(self).wf(),
        ensures
            image.wf(),
            image.settings() == old(self).settings(),
            image.surface() == old(self).surface(),
            image.scene() == old(self).scene() + components@.map_values(|c: &Component| *c),
            *final(self) == *final(image),
    {
        let mut more = components;
        self.components.append(&mut more);
        proof {
            assert(self.scene() =~= old(self).scene() + components@.map_values(
                |c: &Component| *c,
            ));
        }
        self
    }

    /// Renders the scene: draws the components in order, each over what the
    /// ones before it left, on a copy of the prepared canvas, and returns
    /// that copy. `glyphs[i]` is the rasterised text of the `i`-th
    /// component. The image itself stays as it is.
    ///
    /// Fails with `ThereIsNoComponent` where the scene is empty, with
    /// `NoConfigProvided` where the settings or the canvas are missing, and
    /// else with the failure of the first component that refuses.
    pub fn draw(&self, glyphs: &Vec<Vec<GlyphPixel>>) -> (res: Result<Canvas, CustomError>)
        requires
            self.wf(),
        ensures
            self.scene().len() == 0 ==> res == Err::<Canvas, CustomError>(
                CustomError::ThereIsNoComponent,
            ),
            self.scene().len() > 0 && (self.settings() is None || self.surface() is None) ==> res
                == Err::<Canvas, CustomError>(CustomError::NoConfigProvided),
            self.scene().len() > 0 ==> (self.settings() matches Some(config) ==> (self.surface()
                matches Some(canvas) ==> match scene_refusal(
                self.scene(),
                config,
                canvas.w(),
                canvas.h(),
                self.scene().len() as int,
            ) {
                Some(e) => res == Err::<Canvas, CustomError>(e),
                None => (res matches Ok(drawn) && drawn.wf() && drawn.same_size(&canvas) && forall|
                    x: int,
                    y: int,
                |
                    canvas.contains(x, y) ==> #[trigger] drawn.at(x, y) == scene_paint(
                        self.scene(),
                        canvas.at(x, y),
                        x,
                        y,
                        glyphs@,
                        self.scene().len() as int,
                    )),
            })),
    {
        if self.components.len() == 0 {
            return Err(CustomError::ThereIsNoComponent);
        }
        let config = match self.config {
            Some(config) => config,
            None => { return Err(CustomError::NoConfigProvided); },
        };
        match &self.image_buffer {
            Some(canvas) => draw_scene(canvas, config, &self.components, glyphs),
            None => Err(CustomError::NoConfigProvided),
        }
    }
}

} // verus!
