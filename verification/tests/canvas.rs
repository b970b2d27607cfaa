use webcasting_wasm::canvas::{Canvas, Color};

const BLACK: [u8; 4] = [0, 0, 0, 255];
const RED: [u8; 4] = [200, 10, 20, 255];

fn red() -> Color {
    Color::from_rgba(200, 10, 20, 255)
}

fn pixel(canvas: &Canvas, x: usize, y: usize) -> [u8; 4] {
    let at = 4 * (x + y * canvas.width());
    let data = canvas.data();
    [data[at], data[at + 1], data[at + 2], data[at + 3]]
}

/// A cleared canvas with red as the draw colour.
fn cleared(width: usize, height: usize) -> Canvas {
    let mut canvas = Canvas::new(width, height);
    canvas.clear();
    canvas.set_draw_color(red());
    canvas
}

/// The rows of column `x` that are red.
fn red_rows(canvas: &Canvas, x: usize) -> Vec<usize> {
    (0..canvas.height()).filter(|y| pixel(canvas, x, *y) == RED).collect()
}

/// The rows that the line rule gives, worked out in floating point.
fn expected_rows(canvas_height: usize, line: usize) -> Vec<usize> {
    let top = (0.5 * (canvas_height as f64 - line as f64)).round().max(0.0) as usize;
    let bottom = (0.5 * (canvas_height as f64 + line as f64)).round() as usize;
    (top..bottom.min(canvas_height)).collect()
}

#[test]
fn from_rgba_keeps_the_channels() {
    let c = Color::from_rgba(1, 2, 3, 4);
    assert_eq!((c.r, c.g, c.b, c.a), (1, 2, 3, 4));
    assert_eq!(c, Color { r: 1, g: 2, b: 3, a: 4 });
}

#[test]
fn a_new_canvas_is_zeroed_and_draws_in_opaque_black() {
    let canvas = Canvas::new(3, 2);
    assert_eq!(canvas.width(), 3);
    assert_eq!(canvas.height(), 2);
    assert_eq!(canvas.data().len(), 24);
    assert!(canvas.data().iter().all(|b| *b == 0));
    assert_eq!(canvas.draw_color(), Color::from_rgba(0, 0, 0, 255));
}

#[test]
fn a_canvas_without_pixels_has_an_empty_buffer() {
    assert_eq!(Canvas::new(0, 5).data().len(), 0);
    assert_eq!(Canvas::new(5, 0).data().len(), 0);
    let mut empty = Canvas::new(0, 0);
    empty.clear();
    empty.draw_pixel(0, 0);
    empty.draw_vertical_line(0, 3);
    assert_eq!(empty.into_data(), Vec::<u8>::new());
}

#[test]
fn clear_fills_every_pixel() {
    let mut canvas = Canvas::new(3, 2);
    canvas.set_draw_color(red());
    canvas.clear();
    for y in 0..2 {
        for x in 0..3 {
            assert_eq!(pixel(&canvas, x, y), RED);
        }
    }
    assert_eq!(canvas.data().len(), 24);
    assert_eq!(canvas.draw_color(), red());
}

#[test]
fn set_draw_color_changes_no_pixel() {
    let mut canvas = Canvas::new(2, 2);
    canvas.clear();
    let before = canvas.data().clone();
    canvas.set_draw_color(red());
    assert_eq!(canvas.data(), &before);
    assert_eq!(canvas.draw_color(), red());
}

#[test]
fn draw_pixel_writes_one_pixel_in_row_major_order() {
    let mut canvas = cleared(3, 2);
    canvas.draw_pixel(1, 1);
    let mut expected = Vec::new();
    for place in 0..6 {
        expected.extend_from_slice(if place == 4 { &RED } else { &BLACK });
    }
    assert_eq!(canvas.data(), &expected);
}

#[test]
fn draw_pixel_overwrites_without_blending() {
    let mut canvas = cleared(2, 2);
    canvas.set_draw_color(Color::from_rgba(9, 8, 7, 0));
    canvas.draw_pixel(0, 1);
    assert_eq!(pixel(&canvas, 0, 1), [9, 8, 7, 0]);
}

#[test]
fn draw_pixel_on_the_border_column_or_row_is_ignored() {
    // Known quirk: the column `width` and the row `height` are taken without
    // complaint, and nothing is drawn for them.
    let mut canvas = cleared(3, 2);
    let before = canvas.data().clone();
    canvas.draw_pixel(3, 0);
    canvas.draw_pixel(3, 1);
    canvas.draw_pixel(0, 2);
    canvas.draw_pixel(3, 2);
    assert_eq!(canvas.data(), &before);
}

#[test]
fn draw_pixel_far_outside_is_ignored() {
    let mut canvas = cleared(3, 2);
    let before = canvas.data().clone();
    canvas.draw_pixel(4, 0);
    canvas.draw_pixel(0, 3);
    canvas.draw_pixel(usize::MAX, usize::MAX);
    canvas.draw_pixel(usize::MAX, 0);
    canvas.draw_pixel(0, usize::MAX);
    assert_eq!(canvas.data(), &before);
}

#[test]
fn a_vertical_line_is_centred() {
    let mut canvas = cleared(3, 4);
    canvas.draw_vertical_line(1, 2);
    assert_eq!(red_rows(&canvas, 1), vec![1, 2]);
    assert_eq!(red_rows(&canvas, 0), Vec::<usize>::new());
    assert_eq!(red_rows(&canvas, 2), Vec::<usize>::new());
}

#[test]
fn a_vertical_line_of_odd_length_rounds_half_away_from_zero() {
    // rows round(0.5) = 1 to round(3.5) = 4
    let mut canvas = cleared(2, 4);
    canvas.draw_vertical_line(0, 3);
    assert_eq!(red_rows(&canvas, 0), vec![1, 2, 3]);
    // rows round(1.5) = 2 to round(2.5) = 3
    let mut canvas = cleared(2, 4);
    canvas.draw_vertical_line(0, 1);
    assert_eq!(red_rows(&canvas, 0), vec![2]);
}

#[test]
fn a_vertical_line_of_the_full_height_fills_the_column() {
    let mut canvas = cleared(2, 4);
    canvas.draw_vertical_line(1, 4);
    assert_eq!(red_rows(&canvas, 1), vec![0, 1, 2, 3]);
    assert_eq!(red_rows(&canvas, 0), Vec::<usize>::new());
}

#[test]
fn a_vertical_line_longer_than_the_canvas_is_clipped() {
    for line in [5, 6, 7, 100, usize::MAX] {
        let mut canvas = cleared(2, 4);
        canvas.draw_vertical_line(0, line);
        assert_eq!(red_rows(&canvas, 0), vec![0, 1, 2, 3], "line {line}");
        assert_eq!(red_rows(&canvas, 1), Vec::<usize>::new());
    }
}

#[test]
fn a_vertical_line_of_no_length_draws_nothing() {
    let mut canvas = cleared(2, 4);
    let before = canvas.data().clone();
    canvas.draw_vertical_line(0, 0);
    assert_eq!(canvas.data(), &before);
    let mut odd = cleared(2, 5);
    let before = odd.data().clone();
    odd.draw_vertical_line(0, 0);
    assert_eq!(odd.data(), &before);
}

#[test]
fn a_vertical_line_outside_the_columns_draws_nothing() {
    let mut canvas = cleared(2, 4);
    let before = canvas.data().clone();
    canvas.draw_vertical_line(2, 4);
    canvas.draw_vertical_line(3, 2);
    canvas.draw_vertical_line(usize::MAX, 4);
    assert_eq!(canvas.data(), &before);
}

#[test]
fn vertical_lines_follow_the_rounding_rule_for_every_length() {
    for canvas_height in 0..9usize {
        for line in 0..12usize {
            let mut canvas = cleared(3, canvas_height);
            canvas.draw_vertical_line(2, line);
            assert_eq!(
                red_rows(&canvas, 2),
                expected_rows(canvas_height, line),
                "a line of {line} on {canvas_height} rows"
            );
            assert_eq!(red_rows(&canvas, 0), Vec::<usize>::new());
            assert_eq!(red_rows(&canvas, 1), Vec::<usize>::new());
        }
    }
}

#[test]
fn a_later_line_overwrites_an_earlier_one() {
    let mut canvas = cleared(1, 4);
    canvas.draw_vertical_line(0, 4);
    canvas.set_draw_color(Color::from_rgba(1, 1, 1, 255));
    canvas.draw_vertical_line(0, 2);
    assert_eq!(pixel(&canvas, 0, 0), RED);
    assert_eq!(pixel(&canvas, 0, 1), [1, 1, 1, 255]);
    assert_eq!(pixel(&canvas, 0, 2), [1, 1, 1, 255]);
    assert_eq!(pixel(&canvas, 0, 3), RED);
}

#[test]
fn into_data_gives_the_buffer() {
    let mut canvas = cleared(1, 1);
    canvas.draw_pixel(0, 0);
    assert_eq!(canvas.into_data(), RED.to_vec());
}
