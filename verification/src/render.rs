//! One frame: a wall slice for each column of the screen.
use crate::binary64::Binary64;
use crate::canvas::{line_bottom, line_top, pixel_in, Canvas, Color};
use crate::shading::{brightness, slice_brightness, slice_height, wall_slice_height};
use vstd::arithmetic::div_mod::*;
use vstd::prelude::*;

verus! {

/// The colour of row `y` in the column of a ray that travelled `distance`, on a
/// screen of `screen_height` rows: inside the wall slice, which is centred, the
/// grey of the wall's brightness; above and below it black. Both are opaque.
pub open spec fn column_pixel(screen_height: nat, distance: Binary64, y: int) -> Color {
    let line = slice_height(screen_height, distance) as int;
    if line_top(screen_height as int, line) <= y < line_bottom(screen_height as int, line) {
        let level = slice_brightness(distance) as u8;
        Color { r: level, g: level, b: level, a: 255 }
    } else {
        Color { r: 0, g: 0, b: 0, a: 255 }
    }
}

/// The bytes are the frame of a screen of `screen_height` rows with one column
/// for each of the distances: four bytes for each pixel, and in each column the
/// pixels of [`column_pixel`].
pub open spec fn is_frame(frame: Seq<u8>, screen_height: nat, distances: Seq<Binary64>) -> bool {
    &&& frame.len() == 4 * (distances.len() * screen_height)
    &&& forall|x: int, y: int|
        0 <= x < distances.len() && 0 <= y < screen_height ==> #[trigger] pixel_in(
            frame,
            distances.len() as int,
            x,
            y,
        ) == column_pixel(screen_height, distances[x], y)
}

/// Draws the frame of a screen of `screen_height` rows, with one column for
/// each ray, from the distances that the rays travelled, given from the left
/// column to the right.
///
/// The frame holds four bytes for each pixel, red, green, blue and alpha, row
/// after row from the top.
pub fn render(screen_height: usize, distances: &Vec<Binary64>) -> (frame: Vec<u8>)
    requires
        4 * (distances@.len() * screen_height) <= usize::MAX,
    ensures
        is_frame(frame@, screen_height as nat, distances@),
{
    let width = distances.len();
    let mut canvas = Canvas::new(width, screen_height);
    canvas.set_draw_color(Color::from_rgba(0, 0, 0, 255));
    canvas.clear();
    let mut i: usize = 0;
    while i < width
        invariant
            i <= width,
            width == distances@.len(),
            canvas.width() == width,
            canvas.height() == screen_height,
            canvas@.len() == 4 * (width * screen_height),
            forall|x: int, y: int|
                0 <= x < width && 0 <= y < screen_height ==> #[trigger] canvas.pixel(x, y) == (if x
                    < i {
                    column_pixel(screen_height as nat, distances@[x], y)
                } else {
                    Color { r: 0, g: 0, b: 0, a: 255 }
                }),
        decreases width - i,
    {
        let distance = distances[i];
        let rows = wall_slice_height(screen_height, distance);
        let level = brightness(distance);
        canvas.set_draw_color(Color::from_rgba(level, level, level, 255));
        canvas.draw_vertical_line(i, rows);
        i += 1;
    }
    canvas.into_data()
}

/// Drawing has no memory: the frame depends on nothing but the screen height
/// and the distances. Any two frames of the same screen and distances are the
/// same bytes.
pub proof fn lemma_frame_is_determined(
    first: Seq<u8>,
    second: Seq<u8>,
    screen_height: nat,
    distances: Seq<Binary64>,
)
    requires
        is_frame(first, screen_height, distances),
        is_frame(second, screen_height, distances),
    ensures
        first == second,
{
    let width = distances.len() as int;
    assert forall|k: int| 0 <= k < first.len() implies first[k] == second[k] by {
        let place = k / 4;
        assert(width > 0 && place < width * screen_height) by (nonlinear_arith)
            requires
                0 <= k < 4 * (width * screen_height),
                place == k / 4,
                0 <= width,
        ;
        let x = place % width;
        let y = place / width;
        lemma_fundamental_div_mod(place, width);
        lemma_mod_pos_bound(place, width);
        lemma_div_pos_is_pos(place, width);
        assert(width * screen_height == width * (screen_height as int));
        lemma_multiply_divide_lt(place, width, screen_height as int);
        assert(x + y * width == place) by (nonlinear_arith)
            requires
                place == width * y + x,
        ;
        assert(pixel_in(first, width, x, y) == pixel_in(second, width, x, y));
    }
    assert(first =~= second);
}

} // verus!
