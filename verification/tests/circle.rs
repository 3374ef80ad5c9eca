use omage::components::circle::Circle;
use omage::{Canvas, ComponentTrait, Config, CustomError, GlyphPixel, Rgba};

fn circle_white() -> Rgba {
    Rgba([255, 255, 255, 255])
}

fn circle_config() -> Config {
    Config::new(21, 21, circle_white(), None, "out.png", None)
}

fn circle_glyphs() -> Vec<GlyphPixel> {
    Vec::new()
}

#[test]
fn circle_coverage_along_its_rows() {
    let circle = Circle::new(10, 10, 5, Rgba([255, 0, 0, 200]));
    let middle: Vec<u32> = (4..17).map(|x| circle.coverage_at(x, 10)).collect();
    assert_eq!(middle, vec![0, 8, 16, 16, 16, 16, 16, 16, 16, 16, 16, 8, 0]);
    let lower: Vec<u32> = (4..17).map(|x| circle.coverage_at(x, 13)).collect();
    assert_eq!(lower, vec![0, 0, 8, 16, 16, 16, 16, 16, 16, 16, 8, 0, 0]);
    let low: Vec<u32> = (4..17).map(|x| circle.coverage_at(x, 14)).collect();
    assert_eq!(low, vec![0, 0, 0, 8, 16, 16, 16, 16, 16, 8, 0, 0, 0]);
}

#[test]
fn circle_coverage_of_a_small_circle() {
    let circle = Circle::new(2, 2, 1, Rgba([0, 0, 0, 255]));
    let rows: Vec<Vec<u32>> =
        (1..4).map(|y| (1..4).map(|x| circle.coverage_at(x, y)).collect()).collect();
    assert_eq!(rows, vec![vec![1, 8, 1], vec![8, 16, 8], vec![1, 8, 1]]);
}

#[test]
fn circle_coverage_is_symmetric() {
    let circle = Circle::new(30, 40, 17, Rgba([0, 0, 0, 255]));
    for dy in 0..20u32 {
        for dx in 0..20u32 {
            let here = circle.coverage_at(30 + dx, 40 + dy);
            assert_eq!(circle.coverage_at(30 - dx, 40 + dy), here);
            assert_eq!(circle.coverage_at(30 + dx, 40 - dy), here);
            assert_eq!(circle.coverage_at(30 + dy, 40 + dx), here);
        }
    }
}

#[test]
fn circle_draws_its_coverage() {
    let mut canvas = Canvas::new(21, 21, circle_white());
    let circle = Circle::new(10, 10, 5, Rgba([255, 0, 0, 200]));
    assert_eq!(circle.draw(circle_config(), &mut canvas, &circle_glyphs()), Ok(()));
    // full coverage: alpha 200
    assert_eq!(canvas.get(10, 10), Ok(Rgba([255, 55, 55, 255])));
    // half coverage: alpha 200 * 8 / 16
    assert_eq!(canvas.get(15, 10), Ok(Rgba([255, 155, 155, 255])));
    assert_eq!(canvas.get(14, 13), Ok(Rgba([255, 155, 155, 255])));
    assert_eq!(canvas.get(6, 7), Ok(Rgba([255, 155, 155, 255])));
    assert_eq!(canvas.get(10, 15), Ok(Rgba([255, 155, 155, 255])));
    // no coverage, inside the bounding box and outside it
    assert_eq!(canvas.get(15, 15), Ok(circle_white()));
    assert_eq!(canvas.get(14, 14), Ok(circle_white()));
    assert_eq!(canvas.get(16, 10), Ok(circle_white()));
    assert_eq!(canvas.get(10, 16), Ok(circle_white()));
}

#[test]
fn circle_small_exact_pixels() {
    let mut canvas = Canvas::new(5, 5, circle_white());
    let circle = Circle::new(2, 2, 1, Rgba([0, 0, 0, 255]));
    let config = Config::new(5, 5, circle_white(), None, "out.png", None);
    assert_eq!(circle.draw(config, &mut canvas, &circle_glyphs()), Ok(()));
    // 1/16 of alpha 255 is 15, 8/16 is 127
    assert_eq!(canvas.get(1, 1), Ok(Rgba([240, 240, 240, 255])));
    assert_eq!(canvas.get(2, 1), Ok(Rgba([128, 128, 128, 255])));
    assert_eq!(canvas.get(2, 2), Ok(Rgba([0, 0, 0, 255])));
    assert_eq!(canvas.get(0, 0), Ok(circle_white()));
    assert_eq!(canvas.get(4, 2), Ok(circle_white()));
}

#[test]
fn circle_is_full_inside_and_absent_outside() {
    let color = Rgba([0, 80, 160, 255]);
    for r in [1u32, 2, 3, 5, 8, 13] {
        let size = 2 * r + 5;
        let centre = r + 2;
        let mut canvas = Canvas::new(size, size, circle_white());
        let config = Config::new(size, size, circle_white(), None, "out.png", None);
        let circle = Circle::new(centre, centre, r, color);
        assert_eq!(circle.draw(config, &mut canvas, &circle_glyphs()), Ok(()));
        for y in 0..size {
            for x in 0..size {
                let dx = x as i64 - centre as i64;
                let dy = y as i64 - centre as i64;
                let squared = dx * dx + dy * dy;
                let r = r as i64;
                if squared < (r - 1) * (r - 1) {
                    assert_eq!(circle.coverage_at(x, y), 16);
                    assert_eq!(canvas.get(x, y), Ok(color));
                }
                if squared > (r + 1) * (r + 1) {
                    assert_eq!(canvas.get(x, y), Ok(circle_white()));
                }
            }
        }
    }
}

#[test]
fn circle_of_radius_zero_covers_nothing() {
    let mut canvas = Canvas::new(5, 5, circle_white());
    let before = canvas.export();
    let circle = Circle::new(3, 3, 0, Rgba([0, 0, 0, 255]));
    let config = Config::new(5, 5, circle_white(), None, "out.png", None);
    assert_eq!(circle.coverage_at(3, 3), 0);
    assert_eq!(circle.draw(config, &mut canvas, &circle_glyphs()), Ok(()));
    assert_eq!(canvas.export(), before);
}

#[test]
fn circle_beyond_an_edge_is_rejected_whole() {
    let color = Rgba([255, 0, 0, 255]);
    let outside = [
        Circle::new(4, 10, 5, color),
        Circle::new(10, 4, 5, color),
        Circle::new(16, 10, 5, color),
        Circle::new(10, 16, 5, color),
        Circle::new(0, 0, 1, color),
        Circle::new(21, 10, 0, color),
        Circle::new(10, 10, 11, color),
        Circle::new(u32::MAX, u32::MAX, u32::MAX, color),
        Circle::new(10, 10, u32::MAX, color),
    ];
    for circle in outside {
        let mut canvas = Canvas::new(21, 21, circle_white());
        let before = canvas.export();
        assert_eq!(
            circle.draw(circle_config(), &mut canvas, &circle_glyphs()),
            Err(CustomError::OutOfCanvas)
        );
        assert_eq!(canvas.export(), before);
    }
}

#[test]
fn circle_may_touch_the_edges() {
    let color = Rgba([255, 0, 0, 255]);
    let mut canvas = Canvas::new(21, 21, circle_white());
    let circle = Circle::new(10, 10, 10, color);
    assert_eq!(circle.draw(circle_config(), &mut canvas, &circle_glyphs()), Ok(()));
    assert_eq!(canvas.get(10, 10), Ok(color));
    let corner = Circle::new(5, 15, 5, color);
    let mut canvas = Canvas::new(21, 21, circle_white());
    assert_eq!(corner.draw(circle_config(), &mut canvas, &circle_glyphs()), Ok(()));
}

#[test]
fn aliased_circle_fills_solid_within_the_radius() {
    let color = Rgba([0, 0, 0, 255]);
    let mut canvas = Canvas::new(21, 21, circle_white());
    let circle = Circle::new(10, 10, 5, color);
    assert_eq!(circle.draw_aliased(&mut canvas), Ok(()));
    for y in 0..21i64 {
        for x in 0..21i64 {
            let inside = (x - 10) * (x - 10) + (y - 10) * (y - 10) < 25;
            let expected = if inside { color } else { circle_white() };
            assert_eq!(canvas.get(x as u32, y as u32), Ok(expected));
        }
    }
    assert_eq!(canvas.get(14, 10), Ok(color));
    assert_eq!(canvas.get(15, 10), Ok(circle_white()));
    assert_eq!(canvas.get(13, 13), Ok(color));
    assert_eq!(canvas.get(14, 13), Ok(circle_white()));
}

#[test]
fn aliased_circle_composites_a_translucent_colour() {
    let mut canvas = Canvas::new(21, 21, circle_white());
    let circle = Circle::new(10, 10, 2, Rgba([0, 0, 0, 128]));
    assert_eq!(circle.draw_aliased(&mut canvas), Ok(()));
    assert_eq!(canvas.get(10, 10), Ok(Rgba([127, 127, 127, 255])));
    assert_eq!(canvas.get(11, 11), Ok(Rgba([127, 127, 127, 255])));
    assert_eq!(canvas.get(12, 10), Ok(circle_white()));
}

#[test]
fn aliased_circle_beyond_an_edge_is_rejected_whole() {
    let color = Rgba([255, 0, 0, 255]);
    for circle in [Circle::new(4, 10, 5, color), Circle::new(10, 16, 5, color)] {
        let mut canvas = Canvas::new(21, 21, circle_white());
        let before = canvas.export();
        assert_eq!(circle.draw_aliased(&mut canvas), Err(CustomError::OutOfCanvas));
        assert_eq!(canvas.export(), before);
    }
}
