//! The pixel buffer and its drawing operations.
//!
//! A canvas of `width` by `height` pixels keeps four bytes for each pixel, red,
//! green, blue and alpha, row after row from the top and from left to right in
//! each row. Every drawing operation overwrites: nothing is blended.
use vstd::arithmetic::div_mod::*;
use vstd::prelude::*;

verus! {

/// A colour: red, green, blue and alpha, each from 0 to 255.
#[derive(Clone, Copy, Debug, PartialEq, Eq, Structural)]
pub struct Color {
    pub r: u8,
    pub g: u8,
    pub b: u8,
    pub a: u8,
}

impl Color {
    /// The colour with the given channels.
    pub fn from_rgba(r: u8, g: u8, b: u8, a: u8) -> (color: Color)
        ensures
            color == (Color { r, g, b, a }),
    {
        Color { r, g, b, a }
    }
}

/// The colour that a buffer holds for the pixel at `place`, counting the pixels
/// from the top left, row after row.
pub open spec fn pixel_at(buffer: Seq<u8>, place: int) -> Color {
    Color {
        r: buffer[4 * place],
        g: buffer[4 * place + 1],
        b: buffer[4 * place + 2],
        a: buffer[4 * place + 3],
    }
}

/// The colour that a buffer of `width` columns holds for the pixel in column `x`
/// and row `y`.
pub open spec fn pixel_in(buffer: Seq<u8>, width: int, x: int, y: int) -> Color {
    pixel_at(buffer, x + y * width)
}

/// The buffer with the pixel at `place` overwritten by `color`.
pub open spec fn painted(buffer: Seq<u8>, place: int, color: Color) -> Seq<u8> {
    buffer.update(4 * place, color.r).update(4 * place + 1, color.g).update(
        4 * place + 2,
        color.b,
    ).update(4 * place + 3, color.a)
}

/// Half of `n`, rounded to the nearest whole number, and away from zero where
/// two are equally near.
pub open spec fn rounded_half(n: int) -> int {
    if n >= 0 {
        (n + 1) / 2
    } else {
        -((1 - n) / 2)
    }
}

/// The first row of a vertical line of `line` pixels centred on a canvas of
/// `height` rows: half of what the canvas has more than the line, rounded, and
/// the top row where the line is the longer.
pub open spec fn line_top(height: int, line: int) -> int {
    if rounded_half(height - line) < 0 {
        0
    } else {
        rounded_half(height - line)
    }
}

/// The row after the last of such a line: half of the sum of both lengths,
/// rounded, and no more than the rows there are.
pub open spec fn line_bottom(height: int, line: int) -> int {
    if rounded_half(height + line) > height {
        height
    } else {
        rounded_half(height + line)
    }
}

/// A buffer of `width` by `height` pixels with a colour to draw in.
pub struct Canvas {
    width: usize,
    height: usize,
    draw_color: Color,
    data: Vec<u8>,
}

impl View for Canvas {
    type V = Seq<u8>;

    /// The bytes of the buffer.
    closed spec fn view(&self) -> Seq<u8> {
        self.data@
    }
}

impl Canvas {
    /// The buffer holds four bytes for each pixel.
    #[verifier::type_invariant]
    pub open spec fn wf(self) -> bool {
        self@.len() == 4 * (self.width() * self.height())
    }

    /// The number of columns.
    pub closed spec fn spec_width(&self) -> usize {
        self.width
    }

    /// The number of rows.
    pub closed spec fn spec_height(&self) -> usize {
        self.height
    }

    /// The colour that the drawing operations write.
    pub closed spec fn spec_draw_color(&self) -> Color {
        self.draw_color
    }

    /// The colour of the pixel in column `x` and row `y`.
    #[verifier::inline]
    pub open spec fn pixel(self, x: int, y: int) -> Color {
        pixel_in(self@, self.width() as int, x, y)
    }

    /// Column `x` and row `y` name a pixel of the canvas.
    pub open spec fn has_pixel(self, x: int, y: int) -> bool {
        0 <= x < self.width() && 0 <= y < self.height()
    }

    /// A canvas of `width` by `height` pixels, all bytes zero, that draws in
    /// opaque black.
    pub fn new(width: usize, height: usize) -> (canvas: Canvas)
        requires
            4 * (width * height) <= usize::MAX,
        ensures
            canvas.wf(),
            canvas.width() == width,
            canvas.height() == height,
            canvas.draw_color() == (Color { r: 0, g: 0, b: 0, a: 255 }),
            canvas@ == Seq::new((4 * (width * height)) as nat, |i: int| 0u8),
    {
        assert(width * height <= 4 * (width * height)) by (nonlinear_arith);
        let data: Vec<u8> = vec![0u8; 4 * (width * height)];
        assert(data@ =~= Seq::new((4 * (width * height)) as nat, |i: int| 0u8));
        Canvas { height, width, draw_color: Color::from_rgba(0, 0, 0, 255), data }
    }

    /// The number of columns.
    #[verifier::when_used_as_spec(spec_width)]
    pub fn width(&self) -> (w: usize)
        ensures
            w == self.width(),
    {
        self.width
    }

    /// The number of rows.
    #[verifier::when_used_as_spec(spec_height)]
    pub fn height(&self) -> (h: usize)
        ensures
            h == self.height(),
    {
        self.height
    }

    /// The colour that the drawing operations write.
    #[verifier::when_used_as_spec(spec_draw_color)]
    pub fn draw_color(&self) -> (color: Color)
        ensures
            color == self.draw_color(),
    {
        self.draw_color
    }

    /// The bytes of the buffer.
    pub fn data(&self) -> (data: &Vec<u8>)
        ensures
            data@ == self@,
    {
        &self.data
    }

    /// Gives the buffer away.
    pub fn into_data(self) -> (data: Vec<u8>)
        ensures
            data@ == self@,
    {
        self.data
    }

    /// Chooses the colour that the drawing operations write from now on.
    pub fn set_draw_color(&mut self, color: Color)
        ensures
            final(self).draw_color() == color,
            final(self).width() == old(self).width(),
            final(self).height() == old(self).height(),
            final(self)@ == old(self)@,
    {
        proof {
            use_type_invariant(&*self);
        }
        self.draw_color = color;
    }

    /// Overwrites the pixel at `place` with the draw colour.
    fn paint(&mut self, place: usize)
        requires
            place < old(self).width * old(self).height,
        ensures
            final(self).draw_color == old(self).draw_color,
            final(self).width == old(self).width,
            final(self).height == old(self).height,
            final(self).data@ == painted(old(self).data@, place as int, old(self).draw_color),
    {
        proof {
            use_type_invariant(&*self);
        }
        assert(4 * place + 3 < self.data.len());
        let at: usize = 4 * place;
        self.data[at] = self.draw_color.r;
        self.data[at + 1] = self.draw_color.g;
        self.data[at + 2] = self.draw_color.b;
        self.data[at + 3] = self.draw_color.a;
    }

    /// Writes the draw colour to the pixel in column `x` and row `y`. Does
    /// nothing where the canvas has no such pixel: for the column `width` and
    /// the row `height` as for any farther out.
    pub fn draw_pixel(&mut self, x: usize, y: usize)
        ensures
            final(self).draw_color() == old(self).draw_color(),
            final(self).width() == old(self).width(),
            final(self).height() == old(self).height(),
            final(self)@ == (if old(self).has_pixel(x as int, y as int) {
                painted(old(self)@, x + y * old(self).width(), old(self).draw_color())
            } else {
                old(self)@
            }),
    {
        if x >= self.width || y >= self.height {
            return ;
        }
        proof {
            use_type_invariant(&*self);
            lemma_place(x as int, y as int, self.width as int, self.height as int);
            assert(x + y * self.width < self.data.len());
        }
        self.paint(x + y * self.width);
    }

    /// Fills every pixel with the draw colour.
    pub fn clear(&mut self)
        ensures
            final(self).draw_color() == old(self).draw_color(),
            final(self).width() == old(self).width(),
            final(self).height() == old(self).height(),
            final(self)@.len() == old(self)@.len(),
            forall|x: int, y: int|
                old(self).has_pixel(x, y) ==> #[trigger] final(self).pixel(x, y) == old(
                    self,
                ).draw_color(),
    {
        proof {
            use_type_invariant(&*self);
            assert(self.width * self.height <= self.data.len());
        }
        let count: usize = self.width * self.height;
        let mut place: usize = 0;
        while place < count
            invariant
                place <= count,
                count == self.width * self.height,
                self.data@.len() == 4 * count,
                self.draw_color == old(self).draw_color,
                self.width == old(self).width,
                self.height == old(self).height,
                forall|q: int| 0 <= q < place ==> #[trigger] pixel_at(self.data@, q) == self.draw_color,
            decreases count - place,
        {
            let ghost before = self.data@;
            self.paint(place);
            proof {
                assert forall|q: int| 0 <= q < place + 1 implies #[trigger] pixel_at(
                    self.data@,
                    q,
                ) == self.draw_color by {
                    lemma_painted(before, place as int, self.draw_color, q);
                    if q < place {
                        assert(pixel_at(before, q) == self.draw_color);
                    }
                }
            }
            place += 1;
        }
        proof {
            assert forall|x: int, y: int| old(self).has_pixel(x, y) implies #[trigger] self.pixel(
                x,
                y,
            ) == old(self).draw_color() by {
                lemma_place(x, y, self.width as int, self.height as int);
            }
        }
    }

    /// Draws a vertical line of `height` pixels in column `x`, centred on the
    /// canvas: from row [`line_top`] to the row before [`line_bottom`]. What
    /// would lie above or below the canvas is left out, and nothing is drawn
    /// where the canvas has no column `x`.
    pub fn draw_vertical_line(&mut self, x: usize, height: usize)
        ensures
            final(self).draw_color() == old(self).draw_color(),
            final(self).width() == old(self).width(),
            final(self).height() == old(self).height(),
            final(self)@.len() == old(self)@.len(),
            forall|i: int, j: int|
                old(self).has_pixel(i, j) ==> #[trigger] final(self).pixel(i, j) == (if i == x
                    && line_top(old(self).height() as int, height as int) <= j < line_bottom(
                    old(self).height() as int,
                    height as int,
                ) {
                    old(self).draw_color()
                } else {
                    old(self).pixel(i, j)
                }),
    {
        if x >= self.width {
            return ;
        }
        proof {
            use_type_invariant(&*self);
        }
        let rows: usize = self.height;
        let top: usize = if height >= rows {
            0
        } else {
            (rows - height) / 2 + (rows - height) % 2
        };
        let bottom: usize = if height >= rows {
            rows
        } else {
            rows - (rows - height) / 2
        };
        assert(top == line_top(rows as int, height as int));
        assert(bottom == line_bottom(rows as int, height as int));
        let mut j: usize = top;
        while j < bottom
            invariant
                top <= j,
                j <= bottom || j == top,
                bottom <= rows,
                rows == self.height,
                x < self.width,
                self.data@.len() == 4 * (self.width * self.height),
                self.draw_color == old(self).draw_color,
                self.width == old(self).width,
                self.height == old(self).height,
                forall|q: int|
                    0 <= q < self.width * self.height ==> #[trigger] pixel_at(self.data@, q) == (
                    if q % (self.width as int) == x && top <= q / (self.width as int) < j {
                        self.draw_color
                    } else {
                        pixel_at(old(self).data@, q)
                    }),
            decreases bottom - j,
        {
            let ghost before = self.data@;
            let ghost width = self.width as int;
            proof {
                lemma_place(x as int, j as int, width, self.height as int);
                assert(x + j * self.width < self.data.len());
                lemma_fundamental_div_mod_converse(x + j * width, width, j as int, x as int);
            }
            self.paint(x + j * self.width);
            proof {
                assert forall|q: int| 0 <= q < self.width * self.height implies #[trigger] pixel_at(
                    self.data@,
                    q,
                ) == (if q % width == x && top <= q / width < j + 1 {
                    self.draw_color
                } else {
                    pixel_at(old(self).data@, q)
                }) by {
                    lemma_fundamental_div_mod(q, width);
                    assert(width * (q / width) == (q / width) * width) by (nonlinear_arith);
                    lemma_painted(before, x + j * width, self.draw_color, q);
                    assert(pixel_at(before, q) == (if q % width == x && top <= q / width < j {
                        self.draw_color
                    } else {
                        pixel_at(old(self).data@, q)
                    }));
                }
            }
            j += 1;
        }
        proof {
            assert forall|i: int, r: int| old(self).has_pixel(i, r) implies #[trigger] self.pixel(
                i,
                r,
            ) == (if i == x && top <= r < bottom {
                old(self).draw_color()
            } else {
                old(self).pixel(i, r)
            }) by {
                lemma_place(i, r, self.width as int, self.height as int);
                lemma_fundamental_div_mod_converse(i + r * self.width, self.width as int, r, i);
                let q = i + r * self.width;
                assert(pixel_at(self.data@, q) == (if q % (self.width as int) == x && top <= q / (
                self.width as int) < j {
                    self.draw_color
                } else {
                    pixel_at(old(self).data@, q)
                }));
            }
        }
    }
}

/// Painting a pixel gives it the colour and leaves every other pixel as it was.
pub proof fn lemma_painted(buffer: Seq<u8>, place: int, color: Color, other: int)
    requires
        0 <= place,
        4 * place + 3 < buffer.len(),
        0 <= other,
        4 * other + 3 < buffer.len(),
    ensures
        painted(buffer, place, color).len() == buffer.len(),
        pixel_at(painted(buffer, place, color), other) == (if other == place {
            color
        } else {
            pixel_at(buffer, other)
        }),
{
}

/// The place of a pixel lies within the canvas.
pub proof fn lemma_place(x: int, y: int, width: int, height: int)
    by (nonlinear_arith)
    requires
        0 <= x < width,
        0 <= y < height,
    ensures
        0 <= y * width,
        0 <= x + y * width < width * height,
{
}

} // verus!
