//! The canvas: a grid of pixels and its plain-text PPM file.

use vstd::prelude::*;
use vstd::arithmetic::div_mod::*;
use vstd::arithmetic::mul::*;
use vstd::arithmetic::power2::*;
use vstd::string::*;
use crate::types::colour::Colour;
use crate::types::scalar::{two_to, Scalar, SIGN_BIT};
use crate::types::text::{
    decimal, last_line, lemma_append, lemma_break, lemma_decimal_is_plain, lemma_decimal_of_usize,
    lines_below, plain, push_char, push_decimal, push_sample, wrapped, LINE_LIMIT,
};

verus! {

/// The sample that stands for a colour channel in an image file: 256 times
/// the channel, rounded towards zero and cut to what a byte holds. A NaN
/// gives zero.
///
/// The size of a number counts units of `2^-150`, so 256 times the number
/// is its size divided by `2^142`.
pub open spec fn spec_convert_colour(colour: Scalar) -> int {
    if colour.is_nan() || colour.sign() {
        0
    } else if colour.exponent() == 255 {
        255
    } else {
        let scaled = colour.size() / two_to(142);
        if scaled > 255 {
            255
        } else {
            scaled
        }
    }
}

/// What the sample of a number is, by the size of its exponent.
proof fn lemma_convert_colour(colour: Scalar)
    requires
        !colour.is_nan(),
        !colour.sign(),
    ensures
        colour.exponent() >= 127 ==> spec_convert_colour(colour) == 255,
        colour.exponent() <= 118 ==> spec_convert_colour(colour) == 0,
        119 <= colour.exponent() <= 126 ==> spec_convert_colour(colour) == colour.significand()
            / two_to((142 - colour.exponent()) as nat) && two_to((142 - colour.exponent()) as nat)
            >= 0x1_0000,
{
    let e = colour.exponent();
    let s = colour.significand();
    let k = colour.scale();
    let pk = two_to(k);
    let p142 = two_to(142);
    lemma_pow2_pos(k);
    lemma_pow2_pos(142);
    lemma2_to64();
    if e >= 127 && e < 255 {
        // s * 2^e >= 2^23 * 2^127 = 256 * 2^142
        let p127 = two_to(127);
        assert(p127 <= pk) by {
            if k > 127 {
                lemma_pow2_strictly_increases(127, k);
            }
        }
        lemma_pow2_adds(8, 142);
        lemma_pow2_adds(23, 127);
        assert(0x80_0000 * p127 <= s * pk) by {
            lemma_mul_inequality(0x80_0000, s, p127);
            lemma_mul_left_inequality(s, p127, pk);
        }
        assert(256 * p142 <= s * pk);
        lemma_div_is_ordered(256 * p142, s * pk, p142);
        lemma_div_multiples_vanish(256, p142);
        assert(p142 * 256 == 256 * p142) by {
            lemma_mul_is_commutative(256, p142);
        }
    } else if e <= 118 {
        // s * 2^k < 2^24 * 2^118 = 2^142
        let p118 = two_to(118);
        lemma_pow2_pos(118);
        assert(pk <= p118) by {
            if k < 118 {
                lemma_pow2_strictly_increases(k, 118);
            }
        }
        lemma_pow2_adds(24, 118);
        assert(0 <= s * pk < 0x100_0000 * p118) by {
            lemma_mul_nonnegative(s, pk);
            lemma_mul_strictly_positive(0x100_0000, p118);
            if s > 0 {
                lemma_mul_left_inequality(s, pk, p118);
                lemma_mul_strict_inequality(s, 0x100_0000, p118);
            } else {
                lemma_mul_basics(pk);
            }
        }
        lemma_basic_div(s * pk, p142);
    } else if e <= 126 {
        let d = (142 - e) as nat;
        let pd = two_to(d);
        lemma_pow2_pos(d);
        lemma_pow2_adds(k, d);
        lemma_div_multiples_vanish_quotient(pk, s, pd);
        assert(s * pk == pk * s) by {
            lemma_mul_is_commutative(s, pk);
        }
        assert(0x1_0000 <= pd) by {
            if d > 16 {
                lemma_pow2_strictly_increases(16, d);
            }
        }
        assert(s / pd <= 255) by {
            lemma_div_is_ordered_by_denominator(s, 0x1_0000, pd);
            assert(s / 0x1_0000 <= 255);
        }
    }
}

/// A sample fits a byte.
pub proof fn lemma_sample_is_byte(colour: Scalar)
    ensures
        0 <= spec_convert_colour(colour) <= 255,
{
    if !colour.is_nan() && !colour.sign() {
        lemma_convert_colour(colour);
        let e = colour.exponent();
        if 119 <= e <= 126 {
            let pd = two_to((142 - e) as nat);
            lemma_div_pos_is_pos(colour.significand(), pd);
            lemma_div_is_ordered_by_denominator(colour.significand(), 0x1_0000, pd);
            assert(colour.significand() / 0x1_0000 <= 255);
        }
    }
}

/// The sample of a colour channel.
pub fn convert_colour(colour: Scalar) -> (sample: u8)
    ensures
        sample == spec_convert_colour(colour),
{
    if colour.nan() || colour.bits >= SIGN_BIT {
        return 0;
    }
    proof {
        lemma_convert_colour(colour);
        lemma2_to64();
    }
    let exponent: u32 = colour.bits / 0x80_0000;
    let fraction: u32 = colour.bits % 0x80_0000;
    if exponent >= 127 {
        255
    } else if exponent <= 118 {
        0
    } else {
        let significand: u32 = 0x80_0000 + fraction;
        let unit: u32 = if exponent == 126 {
            0x1_0000
        } else if exponent == 125 {
            0x2_0000
        } else if exponent == 124 {
            0x4_0000
        } else if exponent == 123 {
            0x8_0000
        } else if exponent == 122 {
            0x10_0000
        } else if exponent == 121 {
            0x20_0000
        } else if exponent == 120 {
            0x40_0000
        } else {
            0x80_0000
        };
        assert(unit == two_to((142 - exponent) as nat));
        let sample: u32 = significand / unit;
        sample as u8
    }
}

/// An image: `width * height` pixels, row after row from the top.
pub struct CanvasView {
    pub width: nat,
    pub height: nat,
    pub pixels: Seq<Colour>,
}

impl CanvasView {
    /// The place of the pixel in column `x` and row `y`.
    pub open spec fn at(self, x: int, y: int) -> int {
        x + y * self.width
    }

    /// The `k`-th sample of the image: red, green and blue of each pixel in
    /// turn.
    pub open spec fn sample(self, k: int) -> int {
        let pixel = self.pixels[k / 3];
        if k % 3 == 0 {
            spec_convert_colour(pixel.r)
        } else if k % 3 == 1 {
            spec_convert_colour(pixel.g)
        } else {
            spec_convert_colour(pixel.b)
        }
    }

    /// A sample as the file holds it: its digits and a space.
    pub open spec fn token(self, k: int) -> Seq<char> {
        decimal(self.sample(k) as nat).push(' ')
    }

    /// The head of the file: the format, the size and the largest sample.
    pub open spec fn header(self) -> Seq<char> {
        seq!['P', '3', '\n'] + decimal(self.width) + seq![' '] + decimal(self.height) + seq![
            '\n',
            '2',
            '5',
            '5',
        ]
    }

    /// The file up to and without sample `k`, and the length of its last
    /// line. Each row of pixels starts a new line.
    pub open spec fn laid(self, k: nat) -> (Seq<char>, int)
        decreases k,
    {
        if k == 0 {
            (self.header(), 0)
        } else {
            let j = (k - 1) as int;
            let (text, line_len) = self.laid((k - 1) as nat);
            if j % 3 == 0 && (j / 3) % (self.width as int) == 0 {
                wrapped(text.push('\n'), 0, self.token(j))
            } else {
                wrapped(text, line_len, self.token(j))
            }
        }
    }

    /// The image as a plain-text PPM file.
    pub open spec fn ppm(self) -> Seq<char> {
        self.laid(3 * self.pixels.len()).0.push('\n')
    }

    /// The header has lines shorter than the limit where the two sizes fit
    /// on a line, and ends on a line of three characters.
    pub proof fn lemma_header_is_short(self)
        requires
            decimal(self.width).len() + 1 + decimal(self.height).len() < LINE_LIMIT,
        ensures
            lines_below(self.header(), LINE_LIMIT as int),
            last_line(self.header()) == 3,
    {
        let limit = LINE_LIMIT as int;
        let e = Seq::<char>::empty();
        assert(e.take(0) =~= e);
        assert(lines_below(e, limit)) by {
            assert forall|n: int| 0 <= n <= e.len() implies last_line(#[trigger] e.take(n))
                < limit by {
                assert(e.take(n) =~= e);
            }
        }
        let a = e + seq!['P', '3'];
        lemma_append(e, seq!['P', '3'], limit);
        let b = a.push('\n');
        lemma_break(a, limit);
        lemma_decimal_is_plain(self.width);
        lemma_decimal_is_plain(self.height);
        let c = b + decimal(self.width);
        lemma_append(b, decimal(self.width), limit);
        let d = c + seq![' '];
        lemma_append(c, seq![' '], limit);
        let f = d + decimal(self.height);
        lemma_append(d, decimal(self.height), limit);
        let g = f.push('\n');
        lemma_break(f, limit);
        let h = g + seq!['2', '5', '5'];
        lemma_append(g, seq!['2', '5', '5'], limit);
        assert(h =~= self.header());
    }

    /// No line of the file is as long as the limit, where the two sizes fit
    /// on a line: after every sample all lines are shorter, and the last
    /// one has the length that is kept beside the text.
    pub proof fn lemma_lines_are_short(self, k: nat)
        requires
            decimal(self.width).len() + 1 + decimal(self.height).len() < LINE_LIMIT,
            self.pixels.len() == self.width * self.height,
            k <= 3 * self.pixels.len(),
        ensures
            lines_below(self.laid(k).0, LINE_LIMIT as int),
            0 <= self.laid(k).1 < LINE_LIMIT,
            k > 0 ==> last_line(self.laid(k).0) == self.laid(k).1,
        decreases k,
    {
        let limit = LINE_LIMIT as int;
        if k == 0 {
            self.lemma_header_is_short();
        } else {
            let j = (k - 1) as int;
            self.lemma_lines_are_short((k - 1) as nat);
            let pixel = self.pixels[j / 3];
            lemma_sample_is_byte(pixel.r);
            lemma_sample_is_byte(pixel.g);
            lemma_sample_is_byte(pixel.b);
            let number = decimal(self.sample(j) as nat);
            let token = self.token(j);
            assert(2 <= token.len() <= 4) by {
                reveal_with_fuel(decimal, 3);
            }
            assert(plain(token)) by {
                lemma_decimal_is_plain(self.sample(j) as nat);
            }
            assert(self.width > 0) by (nonlinear_arith)
                requires
                    self.pixels.len() == self.width * self.height,
                    self.pixels.len() > 0,
            ;
            let (text, line_len) = self.laid((k - 1) as nat);
            let starts_row = j % 3 == 0 && (j / 3) % (self.width as int) == 0;
            if j == 0 {
                assert(starts_row);
            }
            let (from, len) = if starts_row {
                (text.push('\n'), 0int)
            } else {
                (text, line_len)
            };
            if starts_row {
                lemma_break(text, limit);
            }
            assert(lines_below(from, limit) && last_line(from) == len);
            if len + token.len() >= LINE_LIMIT {
                lemma_break(from, limit);
                lemma_append(from.push('\n'), token, limit);
            } else {
                lemma_append(from, token, limit);
            }
        }
    }

    /// No line of the file is as long as the limit, where the two sizes fit
    /// on a line.
    pub proof fn lemma_ppm_lines_are_short(self)
        requires
            decimal(self.width).len() + 1 + decimal(self.height).len() < LINE_LIMIT,
            self.pixels.len() == self.width * self.height,
        ensures
            lines_below(self.ppm(), LINE_LIMIT as int),
    {
        self.lemma_lines_are_short(3 * self.pixels.len());
        lemma_break(self.laid(3 * self.pixels.len()).0, LINE_LIMIT as int);
    }

    /// A column and a row of the grid name one of its places.
    pub proof fn lemma_at_in_grid(self, x: int, y: int)
        requires
            0 <= x < self.width,
            0 <= y < self.height,
        ensures
            0 <= y * self.width,
            0 <= self.at(x, y) < self.width * self.height,
    {
        let width = self.width as int;
        let height = self.height as int;
        assert(0 <= y * width && y * width + width <= height * width) by (nonlinear_arith)
            requires
                0 <= y < height,
                0 < width,
        ;
        assert(height * width == width * height) by (nonlinear_arith);
    }

    /// Two pixels that differ in column or row stand at different places.
    pub proof fn lemma_at_differs(self, a: int, b: int, x: int, y: int)
        requires
            0 <= a < self.width,
            0 <= x < self.width,
            0 <= b,
            0 <= y,
            a != x || b != y,
        ensures
            self.at(a, b) != self.at(x, y),
    {
        let width = self.width as int;
        if b < y {
            assert(b * width + width <= y * width) by (nonlinear_arith)
                requires
                    b + 1 <= y,
                    0 < width,
            ;
        } else if y < b {
            assert(y * width + width <= b * width) by (nonlinear_arith)
                requires
                    y + 1 <= b,
                    0 < width,
            ;
        }
    }
}

/// A grid of pixels, all black at first.
#[derive(Debug)]
pub struct Canvas {
    canvas: Vec<Colour>,
    width: usize,
    height: usize,
}

impl View for Canvas {
    type V = CanvasView;

    closed spec fn view(&self) -> CanvasView {
        CanvasView { width: self.width as nat, height: self.height as nat, pixels: self.canvas@ }
    }
}

impl Clone for Canvas {
    /// A canvas of the same size with the same pixels.
    fn clone(&self) -> (c: Self)
        ensures
            c@ == self@,
    {
        proof {
            use_type_invariant(self);
        }
        let mut canvas: Vec<Colour> = Vec::new();
        let mut i: usize = 0;
        while i < self.canvas.len()
            invariant
                i <= self.canvas@.len(),
                canvas@ == self.canvas@.take(i as int),
            decreases self.canvas@.len() - i,
        {
            canvas.push(self.canvas[i]);
            i += 1;
            assert(canvas@ =~= self.canvas@.take(i as int));
        }
        assert(canvas@ =~= self.canvas@);
        Self { canvas, width: self.width, height: self.height }
    }
}

impl Canvas {
    #[verifier::type_invariant]
    spec fn well_formed(&self) -> bool {
        self.canvas@.len() == self.width * self.height
    }

    /// A canvas of `width` by `height` black pixels.
    pub fn new(width: usize, height: usize) -> (c: Self)
        requires
            width * height <= usize::MAX,
        ensures
            c@ == (CanvasView {
                width: width as nat,
                height: height as nat,
                pixels: Seq::new((width * height) as nat, |i: int| Colour::spec_black()),
            }),
    {
        let n: usize = width * height;
        let mut canvas: Vec<Colour> = Vec::new();
        let mut i: usize = 0;
        while i < n
            invariant
                i <= n,
                canvas@ == Seq::new(i as nat, |k: int| Colour::spec_black()),
            decreases n - i,
        {
            canvas.push(Colour::black());
            i += 1;
            assert(canvas@ =~= Seq::new(i as nat, |k: int| Colour::spec_black()));
        }
        Self { canvas, width, height }
    }

    /// The number of columns.
    pub fn width(&self) -> (w: usize)
        ensures
            w == self@.width,
    {
        self.width
    }

    /// The number of rows.
    pub fn height(&self) -> (h: usize)
        ensures
            h == self@.height,
            self@.pixels.len() == self@.width * self@.height,
    {
        proof {
            use_type_invariant(self);
        }
        self.height
    }

    /// The pixels, row after row from the top.
    pub fn pixels(&self) -> (p: &Vec<Colour>)
        ensures
            p@ == self@.pixels,
    {
        &self.canvas
    }

    /// The pixel in column `index.0` and row `index.1`.
    pub fn index(&self, index: (usize, usize)) -> (c: Colour)
        requires
            index.0 < self@.width,
            index.1 < self@.height,
        ensures
            0 <= self@.at(index.0 as int, index.1 as int) < self@.pixels.len(),
            c == self@.pixels[self@.at(index.0 as int, index.1 as int)],
    {
        proof {
            use_type_invariant(self);
            self@.lemma_at_in_grid(index.0 as int, index.1 as int);
        }
        let len: usize = self.canvas.len();
        assert(index.0 + index.1 * self.width < len);
        self.canvas[index.0 + index.1 * self.width]
    }

    /// Replaces the pixel in column `index.0` and row `index.1`.
    pub fn set(&mut self, index: (usize, usize), colour: Colour)
        requires
            index.0 < old(self)@.width,
            index.1 < old(self)@.height,
        ensures
            0 <= old(self)@.at(index.0 as int, index.1 as int) < old(self)@.pixels.len(),
            final(self)@ == (CanvasView {
                pixels: old(self)@.pixels.update(
                    old(self)@.at(index.0 as int, index.1 as int),
                    colour,
                ),
                ..old(self)@
            }),
    {
        proof {
            use_type_invariant(&*self);
            self@.lemma_at_in_grid(index.0 as int, index.1 as int);
        }
        let len: usize = self.canvas.len();
        assert(index.0 + index.1 * self.width < len);
        let at: usize = index.0 + index.1 * self.width;
        self.canvas[at] = colour;
    }

    /// Replaces the pixel in column `x` and row `y` where the canvas has
    /// one, and says whether it has.
    pub fn paint(&mut self, x: usize, y: usize, colour: Colour) -> (inside: bool)
        ensures
            inside == (x < old(self)@.width && y < old(self)@.height),
            inside ==> final(self)@ == (CanvasView {
                pixels: old(self)@.pixels.update(old(self)@.at(x as int, y as int), colour),
                ..old(self)@
            }),
            !inside ==> final(self)@ == old(self)@,
    {
        if x < self.width && y < self.height {
            self.set((x, y), colour);
            true
        } else {
            false
        }
    }

    /// The image as a plain-text PPM file: the header, then the samples of
    /// each row of pixels on lines of their own, none as long as
    /// `LINE_LIMIT`.
    pub fn to_ppm(&self) -> (data: String)
        ensures
            data@ == self@.ppm(),
            lines_below(data@, LINE_LIMIT as int),
    {
        proof {
            use_type_invariant(self);
            lemma_decimal_of_usize(self.width);
            lemma_decimal_of_usize(self.height);
            self@.lemma_ppm_lines_are_short();
            reveal_strlit("P3\n");
            reveal_strlit("\n255");
        }
        let mut data = String::new();
        data.append("P3\n");
        push_decimal(&mut data, self.width);
        push_char(&mut data, ' ');
        push_decimal(&mut data, self.height);
        data.append("\n255");
        assert(data@ =~= self@.header());
        let mut line_len: usize = 0;
        let mut i: usize = 0;
        while i < self.canvas.len()
            invariant
                i <= self.canvas@.len(),
                self.canvas@.len() == self.width * self.height,
                line_len < LINE_LIMIT,
                (data@, line_len as int) == self@.laid((3 * i) as nat),
            decreases self.canvas@.len() - i,
        {
            assert(self.width > 0) by (nonlinear_arith)
                requires
                    i < self.width * self.height,
            ;
            let pixel = self.canvas[i];
            let ghost k = 3 * i as int;
            assert(k / 3 == i && (k + 1) / 3 == i && (k + 2) / 3 == i);
            assert(k % 3 == 0 && (k + 1) % 3 == 1 && (k + 2) % 3 == 2);
            if i % self.width == 0 {
                push_char(&mut data, '\n');
                line_len = 0;
            }
            push_sample(&mut data, &mut line_len, convert_colour(pixel.r));
            assert((data@, line_len as int) == self@.laid((k + 1) as nat));
            push_sample(&mut data, &mut line_len, convert_colour(pixel.g));
            assert((data@, line_len as int) == self@.laid((k + 2) as nat));
            push_sample(&mut data, &mut line_len, convert_colour(pixel.b));
            assert((data@, line_len as int) == self@.laid((k + 3) as nat));
            i += 1;
        }
        push_char(&mut data, '\n');
        data
    }
}

} // verus!
