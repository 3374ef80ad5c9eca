use omage::components::rectangle::Rectangle;
use omage::{Canvas, ComponentTrait, Config, CustomError, GlyphPixel, Rgba};

fn rectangle_white() -> Rgba {
    Rgba([255, 255, 255, 255])
}

fn rectangle_config() -> Config {
    Config::new(20, 10, rectangle_white(), None, "out.png", None)
}

fn rectangle_canvas() -> Canvas {
    Canvas::new(20, 10, rectangle_white())
}

fn rectangle_glyphs() -> Vec<GlyphPixel> {
    Vec::new()
}

#[test]
fn rectangle_fills_its_footprint_and_nothing_else() {
    let red = Rgba([255, 0, 0, 255]);
    let mut canvas = rectangle_canvas();
    // height 3, width 4, corner (5, 2)
    let rectangle = Rectangle::new(3, 4, 5, 2, red);
    assert_eq!(rectangle.draw(rectangle_config(), &mut canvas, &rectangle_glyphs()), Ok(()));
    for y in 0..10u32 {
        for x in 0..20u32 {
            let covered = (5..9).contains(&x) && (2..5).contains(&y);
            assert_eq!(canvas.get(x, y), Ok(if covered { red } else { rectangle_white() }));
        }
    }
}

#[test]
fn rectangle_composites_a_translucent_colour() {
    let mut canvas = rectangle_canvas();
    let rectangle = Rectangle::new(1, 1, 0, 0, Rgba([0, 0, 0, 128]));
    assert_eq!(rectangle.draw(rectangle_config(), &mut canvas, &rectangle_glyphs()), Ok(()));
    assert_eq!(canvas.get(0, 0), Ok(Rgba([127, 127, 127, 255])));
    assert_eq!(canvas.get(1, 0), Ok(rectangle_white()));
}

#[test]
fn rectangle_beyond_the_right_edge_is_rejected_whole() {
    let mut canvas = rectangle_canvas();
    let before = canvas.export();
    // a rectangle at (W - 5, 0) that is 10 wide
    let rectangle = Rectangle::new(3, 10, 15, 0, Rgba([255, 0, 0, 255]));
    assert_eq!(
        rectangle.draw(rectangle_config(), &mut canvas, &rectangle_glyphs()),
        Err(CustomError::OutOfCanvas)
    );
    assert_eq!(canvas.export(), before);
}

#[test]
fn rectangle_beyond_the_bottom_edge_is_rejected_whole() {
    let mut canvas = rectangle_canvas();
    let before = canvas.export();
    let rectangle = Rectangle::new(4, 2, 0, 7, Rgba([255, 0, 0, 255]));
    assert_eq!(
        rectangle.draw(rectangle_config(), &mut canvas, &rectangle_glyphs()),
        Err(CustomError::OutOfCanvas)
    );
    assert_eq!(canvas.export(), before);
}

#[test]
fn rectangle_may_touch_the_edges() {
    let blue = Rgba([0, 0, 255, 255]);
    let mut canvas = rectangle_canvas();
    let rectangle = Rectangle::new(10, 20, 0, 0, blue);
    assert_eq!(rectangle.draw(rectangle_config(), &mut canvas, &rectangle_glyphs()), Ok(()));
    for y in 0..10 {
        for x in 0..20 {
            assert_eq!(canvas.get(x, y), Ok(blue));
        }
    }
    let mut canvas = rectangle_canvas();
    let corner = Rectangle::new(1, 1, 19, 9, blue);
    assert_eq!(corner.draw(rectangle_config(), &mut canvas, &rectangle_glyphs()), Ok(()));
    assert_eq!(canvas.get(19, 9), Ok(blue));
    assert_eq!(canvas.get(18, 9), Ok(rectangle_white()));
}

#[test]
fn rectangle_one_pixel_too_wide_is_rejected() {
    let mut canvas = rectangle_canvas();
    let rectangle = Rectangle::new(10, 21, 0, 0, Rgba([0, 0, 255, 255]));
    assert_eq!(
        rectangle.draw(rectangle_config(), &mut canvas, &rectangle_glyphs()),
        Err(CustomError::OutOfCanvas)
    );
}

#[test]
fn rectangle_without_area_covers_nothing() {
    let mut canvas = rectangle_canvas();
    let before = canvas.export();
    let flat = Rectangle::new(0, 5, 100, 100, Rgba([0, 0, 255, 255]));
    assert_eq!(flat.draw(rectangle_config(), &mut canvas, &rectangle_glyphs()), Ok(()));
    let thin = Rectangle::new(5, 0, 3, 3, Rgba([0, 0, 255, 255]));
    assert_eq!(thin.draw(rectangle_config(), &mut canvas, &rectangle_glyphs()), Ok(()));
    assert_eq!(canvas.export(), before);
}

#[test]
fn rectangle_with_the_largest_numbers_is_rejected() {
    let mut canvas = rectangle_canvas();
    let before = canvas.export();
    let rectangle = Rectangle::new(u32::MAX, u32::MAX, u32::MAX, u32::MAX, Rgba([0, 0, 0, 255]));
    assert_eq!(
        rectangle.draw(rectangle_config(), &mut canvas, &rectangle_glyphs()),
        Err(CustomError::OutOfCanvas)
    );
    assert_eq!(canvas.export(), before);
}
