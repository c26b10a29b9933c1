use tinyrenderer::canvas::{Canvas, Color};
use tinyrenderer::line::draw_line;

const RED: Color = [255, 0, 0];

fn lit_pixels(canvas: Canvas, w: usize, h: usize) -> Vec<(usize, usize)> {
    let raw = canvas.into_raw();
    let mut out = vec![];
    for y in 0..h {
        for x in 0..w {
            let i = 3 * ((h - 1 - y) * w + x);
            if raw[i..i + 3] == RED {
                out.push((x, y));
            }
        }
    }
    out.sort();
    out
}

#[test]
fn shallow_line_rounds_to_nearest_row() {
    let mut canvas = Canvas::new(8, 8);
    draw_line(0, 0, 4, 2, &mut canvas, RED);
    assert_eq!(lit_pixels(canvas, 8, 8), vec![(0, 0), (1, 0), (2, 1), (3, 1), (4, 2)]);
}

#[test]
fn reversed_endpoints_give_the_same_line() {
    let mut canvas = Canvas::new(8, 8);
    draw_line(4, 2, 0, 0, &mut canvas, RED);
    assert_eq!(lit_pixels(canvas, 8, 8), vec![(0, 0), (1, 0), (2, 1), (3, 1), (4, 2)]);
}

#[test]
fn steep_line_steps_along_rows() {
    let mut canvas = Canvas::new(8, 8);
    draw_line(1, 0, 3, 5, &mut canvas, RED);
    assert_eq!(lit_pixels(canvas, 8, 8), vec![(1, 0), (1, 1), (2, 2), (2, 3), (3, 4), (3, 5)]);
}

#[test]
fn descending_line_and_single_point() {
    let mut canvas = Canvas::new(8, 8);
    draw_line(0, 3, 3, 0, &mut canvas, RED);
    assert_eq!(lit_pixels(canvas, 8, 8), vec![(0, 3), (1, 2), (2, 1), (3, 0)]);
    let mut canvas = Canvas::new(8, 8);
    draw_line(5, 6, 5, 6, &mut canvas, RED);
    assert_eq!(lit_pixels(canvas, 8, 8), vec![(5, 6)]);
}

#[test]
fn line_leaving_the_image_is_cut() {
    let mut canvas = Canvas::new(4, 4);
    draw_line(2, 1, 9, 1, &mut canvas, RED);
    assert_eq!(lit_pixels(canvas, 4, 4), vec![(2, 1), (3, 1)]);
}
