//! A canvas of pixels and its serialisation as plain-text PPM.
//!
//! The image is written as the header `P3`, width and height, and `255`,
//! then one run of channel values for each row of pixels. Within a run the
//! values are separated by single spaces, and a line is broken before a
//! value that would take it past 70 characters.
use crate::scalar::Scalar;
use crate::tuples::Tuple;
use vstd::prelude::*;

verus! {

/// Red, green and blue.
pub type Pixel = (Scalar, Scalar, Scalar);

/// The longest line of pixel data.
pub const MAX_LINE: usize = 70;

/// The decimal digits of `n`, as ASCII.
pub open spec fn decimal(n: nat) -> Seq<u8>
    decreases n,
{
    if n < 10 {
        seq![(48 + n) as u8]
    } else {
        decimal(n / 10).push((48 + n % 10) as u8)
    }
}

/// The header of an image of the given size.
pub open spec fn spec_header(width: nat, height: nat) -> Seq<u8> {
    seq![80u8, 51u8, 10u8] + decimal(width) + seq![32u8] + decimal(height) + seq![10u8] + seq![
        50u8,
        53u8,
        53u8,
        10u8,
    ]
}

/// What one value adds to the output when the current line holds
/// `line_len` characters: a line break before it where the line would grow
/// past the limit, else a space before it unless the line is empty.
pub open spec fn spec_written(line_len: nat, value: Seq<u8>) -> Seq<u8> {
    if line_len + value.len() + 2 > MAX_LINE {
        seq![10u8] + value
    } else if line_len != 0 {
        seq![32u8] + value
    } else {
        value
    }
}

/// The length of the current line after that value.
pub open spec fn spec_line_after(line_len: nat, value: Seq<u8>) -> nat {
    if line_len + value.len() + 2 > MAX_LINE {
        value.len()
    } else if line_len != 0 {
        line_len + 1 + value.len()
    } else {
        value.len()
    }
}

/// The decimal text of the channel value that `value` shows as.
pub open spec fn spec_channel_text(value: Scalar) -> Seq<u8> {
    decimal(value.spec_channel() as nat)
}

/// What one pixel adds to the output when the current line holds
/// `line_len` characters: its red, green and blue values in turn.
pub open spec fn spec_pixel_text(line_len: nat, pixel: Pixel) -> Seq<u8> {
    let red = spec_channel_text(pixel.0);
    let green = spec_channel_text(pixel.1);
    let blue = spec_channel_text(pixel.2);
    let after_red = spec_line_after(line_len, red);
    let after_green = spec_line_after(after_red, green);
    spec_written(line_len, red) + spec_written(after_red, green) + spec_written(after_green, blue)
}

/// The length of the current line after that pixel.
pub open spec fn spec_pixel_line(line_len: nat, pixel: Pixel) -> nat {
    let red = spec_channel_text(pixel.0);
    let green = spec_channel_text(pixel.1);
    let blue = spec_channel_text(pixel.2);
    spec_line_after(spec_line_after(spec_line_after(line_len, red), green), blue)
}

/// The text of the first `k` pixels of a row, written from the start of a
/// line.
pub open spec fn spec_run(row: Seq<Pixel>, k: nat) -> Seq<u8>
    decreases k,
{
    if k == 0 {
        Seq::empty()
    } else {
        spec_run(row, (k - 1) as nat) + spec_pixel_text(
            spec_run_line(row, (k - 1) as nat),
            row[k - 1],
        )
    }
}

/// The length of the last line of that text.
pub open spec fn spec_run_line(row: Seq<Pixel>, k: nat) -> nat
    decreases k,
{
    if k == 0 {
        0
    } else {
        spec_pixel_line(spec_run_line(row, (k - 1) as nat), row[k - 1])
    }
}

/// The text of one row of pixels, line break included.
pub open spec fn spec_row_text(row: Seq<Pixel>) -> Seq<u8> {
    spec_run(row, row.len()) + seq![10u8]
}

/// The text of the first `k` rows.
pub open spec fn spec_body(rows: Seq<Seq<Pixel>>, k: nat) -> Seq<u8>
    decreases k,
{
    if k == 0 {
        Seq::empty()
    } else {
        spec_body(rows, (k - 1) as nat) + spec_row_text(rows[k - 1])
    }
}

/// Every byte is ASCII.
pub open spec fn is_ascii_bytes(bytes: Seq<u8>) -> bool {
    forall|i: int| 0 <= i < bytes.len() ==> bytes[i] < 128
}

/// `bytes` read as characters, one for each byte.
pub open spec fn ascii_chars(bytes: Seq<u8>) -> Seq<char> {
    Seq::new(bytes.len(), |i: int| bytes[i] as char)
}

/// The decimal digits of `n`.
pub fn decimal_bytes(n: usize) -> (digits: Vec<u8>)
    ensures
        digits@ == decimal(n as nat),
        is_ascii_bytes(digits@),
        1 <= digits@.len() <= 20,
    decreases n,
{
    if n < 10 {
        let mut digits: Vec<u8> = Vec::new();
        digits.push(48 + n as u8);
        assert(digits@ =~= decimal(n as nat));
        digits
    } else {
        let mut digits = decimal_bytes(n / 10);
        proof {
            lemma_decimal_len((n / 10) as nat);
            lemma_decimal_len(n as nat);
        }
        digits.push(48 + (n % 10) as u8);
        digits
    }
}

/// The decimal text of a number is never empty, and that of a number that
/// fits in 64 bits has at most twenty digits.
pub proof fn lemma_decimal_len(n: nat)
    ensures
        1 <= decimal(n).len(),
        n < 10 ==> decimal(n).len() == 1,
        n <= 0xffff_ffff_ffff_ffff ==> decimal(n).len() <= 20,
        decimal(n).len() <= n + 1,
    decreases n,
{
    reveal_with_fuel(decimal, 21);
    if n >= 10 {
        lemma_decimal_len(n / 10);
    }
}

/// The decimal text of the channel value that `value` shows as.
pub fn clamp_value(value: &Scalar) -> (text: Vec<u8>)
    ensures
        text@ == spec_channel_text(*value),
        is_ascii_bytes(text@),
        1 <= text@.len() <= 3,
{
    let channel = value.channel();
    proof {
        reveal_with_fuel(decimal, 3);
    }
    decimal_bytes(channel as usize)
}

/// A writer of plain-text PPM into a buffer of its own. It keeps the length
/// of the line it is on, so as to break lines in time.
pub struct PPM {
    buffer: Vec<u8>,
    current_line_len: usize,
}

impl View for PPM {
    type V = Seq<u8>;

    /// All that has been written.
    closed spec fn view(&self) -> Seq<u8> {
        self.buffer@
    }
}

impl PPM {
    /// The number of characters on the current line.
    pub closed spec fn line_len(&self) -> nat {
        self.current_line_len as nat
    }

    /// The current line is part of what has been written.
    pub closed spec fn wf(&self) -> bool {
        self.current_line_len <= self.buffer@.len()
    }

    /// A writer that has written the header of an image of the given size.
    pub fn new(width: usize, height: usize) -> (ppm: PPM)
        ensures
            ppm.wf(),
            ppm@ == spec_header(width as nat, height as nat),
            ppm.line_len() == 0,
            is_ascii_bytes(ppm@),
    {
        let mut buffer: Vec<u8> = Vec::new();
        buffer.push(80);
        buffer.push(51);
        buffer.push(10);
        let mut digits = decimal_bytes(width);
        buffer.append(&mut digits);
        buffer.push(32);
        let mut digits = decimal_bytes(height);
        buffer.append(&mut digits);
        buffer.push(10);
        buffer.push(50);
        buffer.push(53);
        buffer.push(53);
        buffer.push(10);
        assert(buffer@ =~= spec_header(width as nat, height as nat));
        PPM { buffer, current_line_len: 0 }
    }

    /// Ends the current line.
    pub fn new_line(&mut self)
        requires
            old(self).wf(),
        ensures
            final(self).wf(),
            final(self)@ == old(self)@.push(10u8),
            final(self).line_len() == 0,
    {
        self.buffer.push(10);
        self.current_line_len = 0;
    }

    /// Writes one value, after a line break or a space as the line
    /// requires, and returns the value's length.
    pub fn write(&mut self, value: &[u8]) -> (n: usize)
        requires
            old(self).wf(),
        ensures
            final(self).wf(),
            final(self)@ == old(self)@ + spec_written(old(self).line_len(), value@),
            final(self).line_len() == spec_line_after(old(self).line_len(), value@),
            n == value@.len(),
    {
        let ghost before = self.buffer@;
        if self.current_line_len as u128 + value.len() as u128 + 2 > MAX_LINE as u128 {
            self.new_line();
        } else if self.current_line_len != 0 {
            self.buffer.push(32);
            self.current_line_len += 1;
        }
        self.buffer.extend_from_slice(value);
        self.current_line_len += value.len();
        assert(self.buffer@ =~= before + spec_written(old(self).line_len(), value@));
        value.len()
    }

    /// The text written.
    pub fn into_bytes(self) -> (bytes: Vec<u8>)
        ensures
            bytes@ == self@,
    {
        self.buffer
    }
}

/// Writes the channel value that `value` shows as.
fn write_channel(output: &mut PPM, value: &Scalar)
    requires
        old(output).wf(),
        is_ascii_bytes(old(output)@),
    ensures
        final(output).wf(),
        is_ascii_bytes(final(output)@),
        final(output)@ == old(output)@ + spec_written(
            old(output).line_len(),
            spec_channel_text(*value),
        ),
        final(output).line_len() == spec_line_after(
            old(output).line_len(),
            spec_channel_text(*value),
        ),
{
    let text = clamp_value(value);
    output.write(text.as_slice());
}

/// Writes the three channel values of `pixel`.
fn write_color(output: &mut PPM, pixel: &Pixel)
    requires
        old(output).wf(),
        is_ascii_bytes(old(output)@),
    ensures
        final(output).wf(),
        is_ascii_bytes(final(output)@),
        final(output)@ == old(output)@ + spec_pixel_text(old(output).line_len(), *pixel),
        final(output).line_len() == spec_pixel_line(old(output).line_len(), *pixel),
{
    write_channel(output, &pixel.0);
    write_channel(output, &pixel.1);
    write_channel(output, &pixel.2);
    assert(output@ =~= old(output)@ + spec_pixel_text(old(output).line_len(), *pixel));
}

/// A grid of pixels, `height` rows of `width`.
pub struct Canvas {
    pub width: usize,
    pub height: usize,
    pub pixels: Vec<Vec<Pixel>>,
}

/// The black pixel.
pub open spec fn spec_black_pixel() -> Pixel {
    (Scalar::spec_zero(), Scalar::spec_zero(), Scalar::spec_zero())
}

impl Canvas {
    /// The rows of pixels, top first.
    pub open spec fn rows(&self) -> Seq<Seq<Pixel>> {
        Seq::new(self.pixels@.len(), |i: int| self.pixels@[i]@)
    }

    /// There are `height` rows of `width` pixels each.
    pub open spec fn wf(&self) -> bool {
        &&& self.rows().len() == self.height
        &&& forall|i: int| 0 <= i < self.rows().len() ==> (#[trigger] self.rows()[i]).len() == self.width
    }

    /// The image as plain-text PPM.
    pub open spec fn spec_text(&self) -> Seq<u8> {
        spec_header(self.width as nat, self.height as nat) + spec_body(self.rows(), self.rows().len())
    }

    /// A canvas of the given size, all black.
    pub fn new(width: usize, height: usize) -> (canvas: Canvas)
        ensures
            canvas.wf(),
            canvas.width == width,
            canvas.height == height,
            forall|y: int, x: int|
                0 <= y < height && 0 <= x < width ==> canvas.rows()[y][x] == spec_black_pixel(),
    {
        let black: Pixel = (Scalar::zero(), Scalar::zero(), Scalar::zero());
        let mut pixels: Vec<Vec<Pixel>> = Vec::new();
        let mut y: usize = 0;
        while y < height
            invariant
                y <= height,
                black == spec_black_pixel(),
                pixels@.len() == y,
                forall|i: int| 0 <= i < y ==> (#[trigger] pixels@[i])@.len() == width,
                forall|i: int, j: int| 0 <= i < y && 0 <= j < width ==> pixels@[i]@[j] == black,
            decreases height - y,
        {
            let mut row: Vec<Pixel> = Vec::new();
            let mut x: usize = 0;
            while x < width
                invariant
                    x <= width,
                    row@.len() == x,
                    forall|j: int| 0 <= j < x ==> row@[j] == black,
                decreases width - x,
            {
                row.push(black);
                x += 1;
            }
            pixels.push(row);
            y += 1;
        }
        Canvas { width, height, pixels }
    }

    /// Sets the pixel in column `x` of row `y` to the colour `tuple`. A
    /// place outside the canvas is left alone.
    pub fn write_pixel(&mut self, x: usize, y: usize, tuple: &Tuple)
        requires
            tuple.spec_is_vector(),
        ensures
            final(self).width == old(self).width,
            final(self).height == old(self).height,
            old(self).wf() ==> final(self).wf(),
            final(self).rows() == if y < old(self).rows().len() && x < old(self).rows()[y as int].len() {
                old(self).rows().update(
                    y as int,
                    old(self).rows()[y as int].update(x as int, (tuple.0, tuple.1, tuple.2)),
                )
            } else {
                old(self).rows()
            },
    {
        if y < self.pixels.len() {
            if x < self.pixels[y].len() {
                self.pixels[y][x] = tuple.as_color();
                assert(self.rows() =~~= old(self).rows().update(
                    y as int,
                    old(self).rows()[y as int].update(x as int, (tuple.0, tuple.1, tuple.2)),
                ));
                return ;
            }
        }
        assert(self.rows() =~~= old(self).rows());
    }

    /// The image as the bytes of a plain-text PPM file.
    pub fn to_bytes(&self) -> (bytes: Vec<u8>)
        ensures
            bytes@ == self.spec_text(),
            is_ascii_bytes(bytes@),
    {
        let mut output = PPM::new(self.width, self.height);
        let ghost header = spec_header(self.width as nat, self.height as nat);
        let mut y: usize = 0;
        while y < self.pixels.len()
            invariant
                y <= self.pixels@.len(),
                output.wf(),
                output.line_len() == 0,
                output@ == header + spec_body(self.rows(), y as nat),
                is_ascii_bytes(output@),
            decreases self.pixels@.len() - y,
        {
            let row = &self.pixels[y];
            let ghost start = output@;
            assert(row@ == self.rows()[y as int]);
            let mut x: usize = 0;
            while x < row.len()
                invariant
                    x <= row@.len(),
                    output.wf(),
                    output@ == start + spec_run(row@, x as nat),
                    output.line_len() == spec_run_line(row@, x as nat),
                    is_ascii_bytes(output@),
                decreases row@.len() - x,
            {
                let ghost run = spec_run(row@, x as nat);
                let ghost line = spec_run_line(row@, x as nat);
                write_color(&mut output, &row[x]);
                assert(output@ == start + spec_run(row@, (x + 1) as nat)) by {
                    assert((start + run) + spec_pixel_text(line, row@[x as int]) =~= start + (run
                        + spec_pixel_text(line, row@[x as int])));
                }
                x += 1;
            }
            output.new_line();
            assert(output@ =~= header + spec_body(self.rows(), (y + 1) as nat));
            y += 1;
        }
        output.into_bytes()
    }

    /// The image as the text of a plain-text PPM file.
    pub fn to_string(&self) -> (text: String)
        ensures
            text@ == ascii_chars(self.spec_text()),
    {
        string_from_ascii(self.to_bytes())
    }
}

/// `String::from_utf8`, on bytes that are all ASCII: the string has one
/// character for each byte, the character of that code. (The standard
/// library accepts every ASCII sequence as UTF-8, so the error arm is never
/// taken.)
#[verifier::external_body]
fn string_from_ascii(bytes: Vec<u8>) -> (text: String)
    requires
        is_ascii_bytes(bytes@),
    ensures
        text@ == ascii_chars(bytes@),
{
    match String::from_utf8(bytes) {
        Ok(text) => text,
        Err(_) => String::new(),
    }
}

} // verus!
