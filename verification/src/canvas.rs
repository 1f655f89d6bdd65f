//! The raster canvas: a fixed-size grid of colors, and its encoding to the
//! plain-text image format (magic token, dimensions, maximum channel value,
//! then row-major channel bytes).

use crate::color::{black, rgb_black, Color};
use crate::scalar::{Rat, Scalar};
use vstd::arithmetic::div_mod::{lemma_div_pos_is_pos, lemma_multiply_divide_lt};
use vstd::prelude::*;
use vstd::string::StringExecFns;

verus! {

/// The highest channel value the encoding can carry.
pub const MAX_COLOR: u8 = 255;

/// The character for one decimal digit.
pub open spec fn digit_char(d: int) -> char {
    if d == 0 {
        '0'
    } else if d == 1 {
        '1'
    } else if d == 2 {
        '2'
    } else if d == 3 {
        '3'
    } else if d == 4 {
        '4'
    } else if d == 5 {
        '5'
    } else if d == 6 {
        '6'
    } else if d == 7 {
        '7'
    } else if d == 8 {
        '8'
    } else {
        '9'
    }
}

/// The decimal text of a nonnegative number, without sign or padding.
pub open spec fn dec_chars(n: int) -> Seq<char>
    decreases n,
{
    if n < 10 {
        seq![digit_char(n)]
    } else {
        dec_chars(n / 10).push(digit_char(n % 10))
    }
}

/// The byte a channel value is encoded as: values at or below zero saturate
/// to 0, values at or above one saturate to 255, and anything between is
/// multiplied by 256 and truncated.
pub open spec fn clamp_byte(v: Rat) -> int {
    if v.n <= 0 {
        0
    } else if v.n >= v.d {
        255
    } else {
        (256 * v.n) / v.d
    }
}

/// Maps one channel of a color into `0 ..= 255` for the encoder; the stored
/// color itself is never changed by clamping.
pub fn clamp_to_byte(component: Scalar) -> (r: u8)
    requires
        component.wf(),
    ensures
        r as int == clamp_byte(component@),
{
    if component.num <= 0 {
        0
    } else if component.num >= component.den {
        MAX_COLOR
    } else {
        proof {
            lemma_div_pos_is_pos(256 * (component.num as int), component.den as int);
            lemma_multiply_divide_lt(
                256 * (component.num as int),
                component.den as int,
                256,
            );
        }
        let q = (256u128 * (component.num as u128)) / (component.den as u128);
        q as u8
    }
}

fn push_digit(s: &mut String, d: u8)
    requires
        d < 10,
    ensures
        final(s)@ == old(s)@ + seq![digit_char(d as int)],
{
    proof {
        reveal_strlit("0");
        reveal_strlit("1");
        reveal_strlit("2");
        reveal_strlit("3");
        reveal_strlit("4");
        reveal_strlit("5");
        reveal_strlit("6");
        reveal_strlit("7");
        reveal_strlit("8");
        reveal_strlit("9");
    }
    let piece: &str = if d == 0 {
        "0"
    } else if d == 1 {
        "1"
    } else if d == 2 {
        "2"
    } else if d == 3 {
        "3"
    } else if d == 4 {
        "4"
    } else if d == 5 {
        "5"
    } else if d == 6 {
        "6"
    } else if d == 7 {
        "7"
    } else if d == 8 {
        "8"
    } else {
        "9"
    };
    s.append(piece);
    proof {
        assert(s@ =~= old(s)@ + seq![digit_char(d as int)]);
    }
}

/// Appends the decimal text of `n` to `s`.
fn push_number(s: &mut String, n: usize)
    ensures
        final(s)@ == old(s)@ + dec_chars(n as int),
    decreases n,
{
    if n >= 10 {
        push_number(s, n / 10);
        push_digit(s, (n % 10) as u8);
        proof {
            assert(s@ =~= old(s)@ + dec_chars(n as int));
        }
    } else {
        push_digit(s, n as u8);
        proof {
            assert(s@ =~= old(s)@ + dec_chars(n as int));
        }
    }
}

/// A fixed-size grid of colors addressed by `(column, row)`, with the width
/// dimension outermost; cells are stored column by column.
#[derive(Clone, Debug)]
pub struct Canvas {
    pub width: usize,
    pub height: usize,
    pub pixels: Vec<Color>,
}

/// In a `width` by `height` grid, the cell `(column, row)` lies inside the
/// backing store.
proof fn lemma_grid_index_bound(column: int, row: int, width: int, height: int)
    by (nonlinear_arith)
    requires
        0 <= column < width,
        0 <= row < height,
    ensures
        0 <= column * height + row < width * height,
{
}

/// Distinct cells occupy distinct slots of the backing store.
proof fn lemma_grid_index_injective(c1: int, r1: int, c2: int, r2: int, height: int)
    by (nonlinear_arith)
    requires
        0 <= r1 < height,
        0 <= r2 < height,
        0 <= c1,
        0 <= c2,
        c1 * height + r1 == c2 * height + r2,
    ensures
        c1 == c2 && r1 == r2,
{
}

impl Canvas {
    /// The grid is fully allocated and every stored color is in good
    /// standing.
    pub open spec fn wf(self) -> bool {
        &&& self.pixels@.len() == self.width * self.height
        &&& forall|k: int|
            0 <= k < self.pixels@.len() ==> (#[trigger] self.pixels@[k]).wf()
    }

    /// The color stored for the cell at `(column, row)`.
    pub open spec fn pix(self, column: int, row: int) -> Color {
        self.pixels@[column * self.height + row]
    }

    pub fn pixel_at(self, column_index: usize, row_index: usize) -> (r: Color)
        requires
            self.wf(),
            column_index < self.width,
            row_index < self.height,
        ensures
            r == self.pix(column_index as int, row_index as int),
            r.wf(),
    {
        // Reading the length records that the backing store, and so every
        // cell's slot, fits a usize.
        let _ = self.pixels.len();
        proof {
            lemma_grid_index_bound(
                column_index as int,
                row_index as int,
                self.width as int,
                self.height as int,
            );
        }
        let idx = column_index * self.height + row_index;
        self.pixels[idx]
    }

    pub fn write_pixel(&mut self, column_index: usize, row_index: usize, color: Color)
        requires
            old(self).wf(),
            column_index < old(self).width,
            row_index < old(self).height,
            color.wf(),
        ensures
            final(self).wf(),
            final(self).width == old(self).width,
            final(self).height == old(self).height,
            final(self).pixels@ == old(self).pixels@.update(
                column_index * old(self).height + row_index,
                color,
            ),
            final(self).pix(column_index as int, row_index as int) == color,
            forall|c: int, r: int|
                0 <= c < old(self).width && 0 <= r < old(self).height && !(c == column_index && r
                    == row_index) ==> final(self).pix(c, r) == old(self).pix(c, r),
    {
        // Reading the length records that the backing store, and so every
        // cell's slot, fits a usize.
        let _ = self.pixels.len();
        proof {
            lemma_grid_index_bound(
                column_index as int,
                row_index as int,
                self.width as int,
                self.height as int,
            );
        }
        let idx = column_index * self.height + row_index;
        self.pixels[idx] = color;
        proof {
            assert forall|c: int, r: int|
                0 <= c < self.width && 0 <= r < self.height && !(c == column_index && r
                    == row_index) implies self.pix(c, r) == old(self).pix(c, r) by {
                lemma_grid_index_bound(c, r, self.width as int, self.height as int);
                if c * self.height + r == idx {
                    lemma_grid_index_injective(
                        c,
                        r,
                        column_index as int,
                        row_index as int,
                        self.height as int,
                    );
                }
            }
        }
    }
}

/// The three header lines of the encoding: the magic token, the dimensions,
/// and the maximum channel value, each closed by a line break.
pub open spec fn header_chars(w: int, h: int) -> Seq<char> {
    seq!['P', '3', '\n'] + dec_chars(w) + seq![' '] + dec_chars(h) + seq!['\n', '2', '5', '5', '\n']
}

/// One pixel's three channel bytes, separated by single spaces.
pub open spec fn pixel_chars(c: Color) -> Seq<char> {
    dec_chars(clamp_byte(c@.red)) + seq![' '] + dec_chars(clamp_byte(c@.green)) + seq![' ']
        + dec_chars(clamp_byte(c@.blue))
}

/// The first `n` pixels of row `row`, joined by single spaces.
pub open spec fn row_prefix_chars(cv: Canvas, row: int, n: int) -> Seq<char>
    decreases n,
{
    if n <= 0 {
        Seq::<char>::empty()
    } else if n == 1 {
        pixel_chars(cv.pix(0, row))
    } else {
        row_prefix_chars(cv, row, n - 1) + seq![' '] + pixel_chars(cv.pix(n - 1, row))
    }
}

/// One full row of the body.
pub open spec fn row_chars(cv: Canvas, row: int) -> Seq<char> {
    row_prefix_chars(cv, row, cv.width as int)
}

/// The first `n` rows of the body, joined by single line breaks.
pub open spec fn body_prefix_chars(cv: Canvas, n: int) -> Seq<char>
    decreases n,
{
    if n <= 0 {
        Seq::<char>::empty()
    } else if n == 1 {
        row_chars(cv, 0)
    } else {
        body_prefix_chars(cv, n - 1) + seq!['\n'] + row_chars(cv, n - 1)
    }
}

/// The whole body: all rows in row-major order; empty when either dimension
/// is zero. The very last value carries no trailing separator.
pub open spec fn body_chars(cv: Canvas) -> Seq<char> {
    if cv.width == 0 || cv.height == 0 {
        Seq::<char>::empty()
    } else {
        body_prefix_chars(cv, cv.height as int)
    }
}

/// The complete encoding of a canvas.
pub open spec fn ppm_chars(cv: Canvas) -> Seq<char> {
    header_chars(cv.width as int, cv.height as int) + body_chars(cv)
}

/// Appends one pixel's three clamped channel values.
fn append_pixel(s: &mut String, c: &Color)
    requires
        c.wf(),
    ensures
        final(s)@ == old(s)@ + pixel_chars(*c),
{
    proof {
        reveal_strlit(" ");
    }
    push_number(s, clamp_to_byte(c.red) as usize);
    s.append(" ");
    push_number(s, clamp_to_byte(c.green) as usize);
    s.append(" ");
    push_number(s, clamp_to_byte(c.blue) as usize);
    proof {
        assert(s@ =~= old(s)@ + pixel_chars(*c));
    }
}

impl Canvas {
    /// The header of the encoding.
    fn ppm_header(&self) -> (s: String)
        ensures
            s@ == header_chars(self.width as int, self.height as int),
    {
        proof {
            reveal_strlit("P3\n");
            reveal_strlit(" ");
            reveal_strlit("\n255\n");
        }
        let mut s = String::new();
        s.append("P3\n");
        push_number(&mut s, self.width);
        s.append(" ");
        push_number(&mut s, self.height);
        s.append("\n255\n");
        proof {
            assert(s@ =~= header_chars(self.width as int, self.height as int));
        }
        s
    }

    /// The full text encoding: header, then every pixel's channel bytes in
    /// row-major order, spaces between values within a row and a line break
    /// closing every row but the last.
    pub fn to_ppm(&self) -> (s: String)
        requires
            self.wf(),
        ensures
            s@ == ppm_chars(*self),
    {
        let mut s = self.ppm_header();
        let ghost head = header_chars(self.width as int, self.height as int);
        if self.width > 0 && self.height > 0 {
            proof {
                reveal_strlit("\n");
                reveal_strlit(" ");
            }
            let mut row: usize = 0;
            while row < self.height
                invariant
                    self.wf(),
                    self.width > 0,
                    self.height > 0,
                    row <= self.height,
                    head == header_chars(self.width as int, self.height as int),
                    s@ == head + body_prefix_chars(*self, row as int),
                    ("\n")@ == seq!['\n'],
                    (" ")@ == seq![' '],
                decreases self.height - row,
            {
                if row > 0 {
                    s.append("\n");
                }
                let ghost base = s@;
                let mut col: usize = 0;
                while col < self.width
                    invariant
                        self.wf(),
                        self.width > 0,
                        self.height > 0,
                        row < self.height,
                        col <= self.width,
                        base == head + body_prefix_chars(*self, row as int) + (if row == 0 {
                            Seq::<char>::empty()
                        } else {
                            seq!['\n']
                        }),
                        s@ == base + row_prefix_chars(*self, row as int, col as int),
                        (" ")@ == seq![' '],
                    decreases self.width - col,
                {
                    if col > 0 {
                        s.append(" ");
                    }
                    let _ = self.pixels.len();
                    proof {
                        lemma_grid_index_bound(
                            col as int,
                            row as int,
                            self.width as int,
                            self.height as int,
                        );
                    }
                    let idx = col * self.height + row;
                    let px = self.pixels[idx];
                    append_pixel(&mut s, &px);
                    proof {
                        assert(s@ =~= base + row_prefix_chars(*self, row as int, col as int + 1));
                    }
                    col += 1;
                }
                proof {
                    assert(s@ =~= head + body_prefix_chars(*self, row as int + 1));
                }
                row += 1;
            }
        }
        proof {
            assert(s@ =~= ppm_chars(*self));
        }
        s
    }
}

/// The text of one all-zero row: `3 * w` zero values joined by spaces.
pub open spec fn zero_row_chars(w: int) -> Seq<char>
    decreases w,
{
    if w <= 0 {
        Seq::<char>::empty()
    } else if w == 1 {
        seq!['0', ' ', '0', ' ', '0']
    } else {
        zero_row_chars(w - 1) + seq![' ', '0', ' ', '0', ' ', '0']
    }
}

/// The text of an all-zero body: `h` zero rows joined by line breaks.
pub open spec fn zero_body_chars(w: int, h: int) -> Seq<char>
    decreases h,
{
    if w <= 0 || h <= 0 {
        Seq::<char>::empty()
    } else if h == 1 {
        zero_row_chars(w)
    } else {
        zero_body_chars(w, h - 1) + seq!['\n'] + zero_row_chars(w)
    }
}

proof fn lemma_zero_pixel(c: Color)
    requires
        c@ == rgb_black(),
    ensures
        pixel_chars(c) == seq!['0', ' ', '0', ' ', '0'],
{
    assert(pixel_chars(c) =~= seq!['0', ' ', '0', ' ', '0']);
}

proof fn lemma_zero_row(cv: Canvas, row: int, n: int)
    requires
        cv.wf(),
        forall|k: int| 0 <= k < cv.pixels@.len() ==> (#[trigger] cv.pixels@[k])@ == rgb_black(),
        0 <= row < cv.height,
        0 <= n <= cv.width,
    ensures
        row_prefix_chars(cv, row, n) == zero_row_chars(n),
    decreases n,
{
    if n > 0 {
        lemma_zero_row(cv, row, n - 1);
        lemma_grid_index_bound(n - 1, row, cv.width as int, cv.height as int);
        lemma_zero_pixel(cv.pix(n - 1, row));
        assert(row_prefix_chars(cv, row, n) =~= zero_row_chars(n));
    }
}

proof fn lemma_zero_body(cv: Canvas, n: int)
    requires
        cv.wf(),
        forall|k: int| 0 <= k < cv.pixels@.len() ==> (#[trigger] cv.pixels@[k])@ == rgb_black(),
        cv.width >= 1,
        0 <= n <= cv.height,
    ensures
        body_prefix_chars(cv, n) == zero_body_chars(cv.width as int, n),
    decreases n,
{
    if n > 0 {
        lemma_zero_body(cv, n - 1);
        lemma_zero_row(cv, n - 1, cv.width as int);
        assert(body_prefix_chars(cv, n) =~= zero_body_chars(cv.width as int, n));
    }
}

/// A canvas whose every cell still holds black encodes as the bare header
/// followed by `h` rows of `3 * w` zero values: spaces between the values of
/// a row, a line break between rows, and no separator after the last value.
pub proof fn lemma_fresh_canvas_encoding(cv: Canvas)
    requires
        cv.wf(),
        forall|k: int| 0 <= k < cv.pixels@.len() ==> (#[trigger] cv.pixels@[k])@ == rgb_black(),
    ensures
        ppm_chars(cv) == header_chars(cv.width as int, cv.height as int) + zero_body_chars(
            cv.width as int,
            cv.height as int,
        ),
{
    if cv.width == 0 || cv.height == 0 {
        assert(ppm_chars(cv) =~= header_chars(cv.width as int, cv.height as int)
            + zero_body_chars(cv.width as int, cv.height as int));
    } else {
        lemma_zero_body(cv, cv.height as int);
    }
}

/// A `width` by `height` canvas with every cell black.
pub fn canvas(width: usize, height: usize) -> (r: Canvas)
    requires
        width * height <= usize::MAX,
    ensures
        r.wf(),
        r.width == width,
        r.height == height,
        forall|k: int| 0 <= k < r.pixels@.len() ==> (#[trigger] r.pixels@[k])@ == rgb_black(),
{
    let total: usize = width * height;
    let mut pixels: Vec<Color> = Vec::new();
    let mut i: usize = 0;
    while i < total
        invariant
            i <= total,
            pixels@.len() == i,
            forall|k: int| 0 <= k < i ==> (#[trigger] pixels@[k]).wf(),
            forall|k: int| 0 <= k < i ==> (#[trigger] pixels@[k])@ == rgb_black(),
        decreases total - i,
    {
        pixels.push(black());
        i += 1;
    }
    Canvas { width, height, pixels }
}

pub fn pixel_at(canvas: Canvas, column_index: usize, row_index: usize) -> (r: Color)
    requires
        canvas.wf(),
        column_index < canvas.width,
        row_index < canvas.height,
    ensures
        r == canvas.pix(column_index as int, row_index as int),
        r.wf(),
{
    canvas.pixel_at(column_index, row_index)
}

pub fn write_pixel(canvas: &mut Canvas, column_index: usize, row_index: usize, color: Color)
    requires
        old(canvas).wf(),
        column_index < old(canvas).width,
        row_index < old(canvas).height,
        color.wf(),
    ensures
        final(canvas).wf(),
        final(canvas).width == old(canvas).width,
        final(canvas).height == old(canvas).height,
        final(canvas).pixels@ == old(canvas).pixels@.update(
            column_index * old(canvas).height + row_index,
            color,
        ),
        final(canvas).pix(column_index as int, row_index as int) == color,
        forall|c: int, r: int|
            0 <= c < old(canvas).width && 0 <= r < old(canvas).height && !(c == column_index && r
                == row_index) ==> final(canvas).pix(c, r) == old(canvas).pix(c, r),
{
    canvas.write_pixel(column_index, row_index, color)
}

} // verus!
