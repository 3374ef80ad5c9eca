use omage::components::line::{absolute, draw_pixel, fpart, ipart, rfpart, swap, Line};
use omage::{Canvas, ComponentTrait, Config, GlyphPixel, Rgba};

fn line_white() -> Rgba {
    Rgba([255, 255, 255, 255])
}

fn line_grey(level: u8) -> Rgba {
    Rgba([level, level, level, 255])
}

fn line_config() -> Config {
    Config::new(20, 20, line_white(), None, "out.png", None)
}

fn line_drawn(width: u32, height: u32, line: Line) -> Canvas {
    let mut canvas = Canvas::new(width, height, line_white());
    let none: Vec<GlyphPixel> = Vec::new();
    assert_eq!(line.draw(line_config(), &mut canvas, &none), Ok(()));
    canvas
}

fn line_touched(canvas: &Canvas) -> Vec<(u32, u32, Rgba)> {
    let mut touched = Vec::new();
    for y in 0..canvas.height() {
        for x in 0..canvas.width() {
            let pixel = canvas.get(x, y).unwrap();
            if pixel != line_white() {
                touched.push((x, y, pixel));
            }
        }
    }
    touched
}

#[test]
fn ipart_is_the_floor() {
    assert_eq!(ipart(7, 2), 3);
    assert_eq!(ipart(6, 2), 3);
    assert_eq!(ipart(0, 5), 0);
    assert_eq!(ipart(4, 5), 0);
    assert_eq!(ipart(-1, 5), -1);
    assert_eq!(ipart(-5, 5), -1);
    assert_eq!(ipart(-6, 5), -2);
    assert_eq!(ipart(-7, 2), -4);
    assert_eq!(ipart(i128::MIN, 1), i128::MIN);
    assert_eq!(ipart(i128::MAX, 1), i128::MAX);
    assert_eq!(ipart(i128::MIN, i128::MAX), -2);
}

#[test]
fn fpart_is_what_is_left_above_the_floor() {
    assert_eq!(fpart(7, 2), 1);
    assert_eq!(fpart(6, 2), 0);
    assert_eq!(fpart(0, 5), 0);
    assert_eq!(fpart(4, 5), 4);
    assert_eq!(fpart(-1, 5), 4);
    assert_eq!(fpart(-5, 5), 0);
    assert_eq!(fpart(-6, 5), 4);
    assert_eq!(fpart(-7, 2), 1);
    assert_eq!(fpart(i128::MIN, 1), 0);
    assert_eq!(fpart(i128::MIN, i128::MAX), i128::MAX - 1);
}

#[test]
fn rfpart_is_what_lacks_to_one() {
    assert_eq!(rfpart(7, 2), 1);
    assert_eq!(rfpart(6, 2), 2);
    assert_eq!(rfpart(4, 5), 1);
    assert_eq!(rfpart(-1, 5), 1);
    assert_eq!(rfpart(-5, 5), 5);
}

#[test]
fn parts_add_up_to_the_fraction() {
    for den in 1..20i128 {
        for num in -100..100i128 {
            let whole = ipart(num, den);
            let part = fpart(num, den);
            assert!(0 <= part && part < den);
            assert_eq!(whole * den + part, num);
            assert_eq!(rfpart(num, den) + part, den);
        }
    }
}

#[test]
fn absolute_drops_the_sign() {
    assert_eq!(absolute(0), 0);
    assert_eq!(absolute(17), 17);
    assert_eq!(absolute(-17), 17);
    assert_eq!(absolute(i64::MAX), i64::MAX);
    assert_eq!(absolute(i64::MIN + 1), i64::MAX);
}

#[test]
fn swap_exchanges() {
    let mut a = 3;
    let mut b = -8;
    swap(&mut a, &mut b);
    assert_eq!((a, b), (-8, 3));
}

#[test]
fn draw_pixel_composites_at_the_coverage() {
    let mut canvas = Canvas::new(4, 4, line_white());
    draw_pixel(&mut canvas, 1, 2, 1, 2, Rgba([0, 0, 0, 255]));
    assert_eq!(canvas.get(1, 2), Ok(line_grey(128)));
    draw_pixel(&mut canvas, 3, 3, 1, 1, Rgba([0, 0, 0, 255]));
    assert_eq!(canvas.get(3, 3), Ok(line_grey(0)));
    draw_pixel(&mut canvas, 0, 0, 0, 7, Rgba([0, 0, 0, 255]));
    assert_eq!(canvas.get(0, 0), Ok(line_white()));
    assert_eq!(line_touched(&canvas).len(), 2);
}

#[test]
fn draw_pixel_skips_what_is_outside() {
    let mut canvas = Canvas::new(4, 4, line_white());
    draw_pixel(&mut canvas, 4, 0, 1, 1, Rgba([0, 0, 0, 255]));
    draw_pixel(&mut canvas, 0, 4, 1, 1, Rgba([0, 0, 0, 255]));
    draw_pixel(&mut canvas, -1, 2, 1, 1, Rgba([0, 0, 0, 255]));
    draw_pixel(&mut canvas, 2, -1, 1, 1, Rgba([0, 0, 0, 255]));
    assert!(line_touched(&canvas).is_empty());
}

#[test]
fn horizontal_line_is_all_or_nothing() {
    let red = Rgba([255, 0, 0, 255]);
    let half = Rgba([255, 128, 128, 255]);
    let canvas = line_drawn(20, 20, Line::new(0, 5, 10, 5, red));
    for y in 0..20u32 {
        for x in 0..20u32 {
            let expected = if y != 5 || x > 10 {
                line_white()
            } else if x == 0 || x == 10 {
                half
            } else {
                red
            };
            assert_eq!(canvas.get(x, y), Ok(expected));
        }
    }
}

#[test]
fn vertical_line_is_all_or_nothing() {
    let blue = Rgba([0, 0, 255, 255]);
    let half = Rgba([128, 128, 255, 255]);
    let canvas = line_drawn(20, 20, Line::new(7, 12, 7, 3, blue));
    for y in 0..20u32 {
        for x in 0..20u32 {
            let expected = if x != 7 || y < 3 || y > 12 {
                line_white()
            } else if y == 3 || y == 12 {
                half
            } else {
                blue
            };
            assert_eq!(canvas.get(x, y), Ok(expected));
        }
    }
}

#[test]
fn diagonal_line_is_all_or_nothing() {
    let red = Rgba([255, 0, 0, 255]);
    let half = Rgba([255, 128, 128, 255]);
    let canvas = line_drawn(20, 20, Line::new(0, 0, 10, 10, red));
    for y in 0..20u32 {
        for x in 0..20u32 {
            let expected = if x != y || x > 10 {
                line_white()
            } else if x == 0 || x == 10 {
                half
            } else {
                red
            };
            assert_eq!(canvas.get(x, y), Ok(expected));
        }
    }
}

#[test]
fn falling_diagonal_line_is_all_or_nothing() {
    let red = Rgba([255, 0, 0, 255]);
    let half = Rgba([255, 128, 128, 255]);
    let canvas = line_drawn(20, 20, Line::new(2, 9, 9, 2, red));
    for y in 0..20u32 {
        for x in 0..20u32 {
            let expected = if x + y != 11 || x < 2 || x > 9 {
                line_white()
            } else if x == 2 || x == 9 {
                half
            } else {
                red
            };
            assert_eq!(canvas.get(x, y), Ok(expected));
        }
    }
}

#[test]
fn gentle_line_splits_the_coverage() {
    let canvas = line_drawn(20, 20, Line::new(0, 0, 4, 2, Rgba([0, 0, 0, 255])));
    assert_eq!(
        line_touched(&canvas),
        vec![
            (0, 0, line_grey(128)),
            (1, 0, line_grey(128)),
            (1, 1, line_grey(128)),
            (2, 1, line_grey(0)),
            (3, 1, line_grey(128)),
            (3, 2, line_grey(128)),
            (4, 2, line_grey(128)),
        ]
    );
}

#[test]
fn line_of_slope_one_third_in_a_translucent_colour() {
    let canvas = line_drawn(20, 20, Line::new(0, 0, 6, 2, Rgba([0, 0, 0, 200])));
    assert_eq!(
        line_touched(&canvas),
        vec![
            (0, 0, line_grey(155)),
            (1, 0, line_grey(122)),
            (2, 0, line_grey(189)),
            (1, 1, line_grey(189)),
            (2, 1, line_grey(122)),
            (3, 1, line_grey(55)),
            (4, 1, line_grey(122)),
            (5, 1, line_grey(189)),
            (4, 2, line_grey(189)),
            (5, 2, line_grey(122)),
            (6, 2, line_grey(155)),
        ]
    );
}

#[test]
fn steep_line_runs_along_the_rows() {
    let canvas = line_drawn(20, 20, Line::new(2, 9, 4, 1, Rgba([0, 0, 0, 255])));
    assert_eq!(
        line_touched(&canvas),
        vec![
            (4, 1, line_grey(128)),
            (3, 2, line_grey(192)),
            (4, 2, line_grey(64)),
            (3, 3, line_grey(128)),
            (4, 3, line_grey(128)),
            (3, 4, line_grey(64)),
            (4, 4, line_grey(192)),
            (3, 5, line_grey(0)),
            (2, 6, line_grey(192)),
            (3, 6, line_grey(64)),
            (2, 7, line_grey(128)),
            (3, 7, line_grey(128)),
            (2, 8, line_grey(64)),
            (3, 8, line_grey(192)),
            (2, 9, line_grey(128)),
        ]
    );
}

#[test]
fn falling_line_given_from_right_to_left() {
    let canvas = line_drawn(20, 20, Line::new(6, 3, 0, 5, Rgba([0, 0, 0, 255])));
    assert_eq!(
        line_touched(&canvas),
        vec![
            (4, 3, line_grey(170)),
            (5, 3, line_grey(85)),
            (6, 3, line_grey(128)),
            (1, 4, line_grey(170)),
            (2, 4, line_grey(85)),
            (3, 4, line_grey(0)),
            (4, 4, line_grey(85)),
            (5, 4, line_grey(170)),
            (0, 5, line_grey(128)),
            (1, 5, line_grey(85)),
            (2, 5, line_grey(170)),
        ]
    );
}

#[test]
fn line_is_the_same_from_either_end() {
    let color = Rgba([10, 200, 30, 180]);
    let ends = [(0, 0, 19, 7), (3, 18, 5, 1), (0, 19, 19, 0), (4, 4, 4, 15), (2, 9, 17, 9)];
    for (x1, y1, x2, y2) in ends {
        let forth = line_drawn(20, 20, Line::new(x1, y1, x2, y2, color));
        let back = line_drawn(20, 20, Line::new(x2, y2, x1, y1, color));
        assert_eq!(forth.export(), back.export());
    }
}

#[test]
fn line_between_one_pixel_and_itself() {
    // both endpoints lay half of the colour on the same pixel
    let canvas = line_drawn(20, 20, Line::new(7, 7, 7, 7, Rgba([0, 0, 0, 255])));
    assert_eq!(line_touched(&canvas), vec![(7, 7, line_grey(64))]);
}

#[test]
fn line_is_clipped_at_the_edges() {
    let canvas = line_drawn(4, 4, Line::new(0, 2, 10, 2, Rgba([0, 0, 0, 255])));
    assert_eq!(
        line_touched(&canvas),
        vec![
            (0, 2, line_grey(128)),
            (1, 2, line_grey(0)),
            (2, 2, line_grey(0)),
            (3, 2, line_grey(0)),
        ]
    );
}

#[test]
fn line_wholly_outside_draws_nothing() {
    let canvas = line_drawn(4, 4, Line::new(10, 10, 30, 17, Rgba([0, 0, 0, 255])));
    assert!(line_touched(&canvas).is_empty());
    let canvas = line_drawn(4, 4, Line::new(4, 0, 4, 3, Rgba([0, 0, 0, 255])));
    assert!(line_touched(&canvas).is_empty());
}

#[test]
fn line_on_the_last_row_spills_nowhere() {
    let canvas = line_drawn(6, 3, Line::new(0, 2, 5, 2, Rgba([0, 0, 0, 255])));
    assert_eq!(
        line_touched(&canvas),
        vec![
            (0, 2, line_grey(128)),
            (1, 2, line_grey(0)),
            (2, 2, line_grey(0)),
            (3, 2, line_grey(0)),
            (4, 2, line_grey(0)),
            (5, 2, line_grey(128)),
        ]
    );
}

#[test]
fn line_never_fails() {
    let mut canvas = Canvas::new(3, 3, line_white());
    let none: Vec<GlyphPixel> = Vec::new();
    let far = Line::new(u32::MAX - 2, u32::MAX, u32::MAX, u32::MAX - 2, Rgba([0, 0, 0, 255]));
    assert_eq!(far.draw(line_config(), &mut canvas, &none), Ok(()));
    assert!(line_touched(&canvas).is_empty());
}
