//! The image that a canvas is written out as: the plain-text portable
//! pixmap, one line for each pixel.

use vstd::prelude::*;
use crate::color::{channels, decode_color};
use crate::framebuffer::{Canvas, Framebuffer};

verus! {

/// The ASCII code of a space.
pub const SPACE: u8 = 0x20;

/// The ASCII code of a line feed.
pub const LINE_FEED: u8 = 0x0A;

/// The ASCII code of the digit `0`; the other digits follow it.
pub const DIGIT_ZERO: u8 = 0x30;

/// The ASCII code of the letter `P`, with which the format's name starts.
pub const LETTER_P: u8 = 0x50;

/// The digits of `n` in base ten, as ASCII, without leading zeros.
pub open spec fn decimal(n: nat) -> Seq<u8>
    decreases n,
{
    if n < 10 {
        seq![(DIGIT_ZERO + n) as u8]
    } else {
        decimal(n / 10).push((DIGIT_ZERO + n % 10) as u8)
    }
}

/// The three lines that start an image: the format's name, which is the
/// letter `P` and the digit 3, then the size of the canvas, then the largest
/// value of a channel.
pub open spec fn header(width: nat, height: nat) -> Seq<u8> {
    seq![LETTER_P] + decimal(3) + seq![LINE_FEED] + decimal(width) + seq![SPACE] + decimal(height)
        + seq![LINE_FEED] + decimal(255) + seq![LINE_FEED]
}

/// The line of one pixel: red, green and blue, a space between them. The
/// alpha channel is left out.
pub open spec fn pixel_line(hex: u32) -> Seq<u8> {
    let (r, g, b, _a) = channels(hex);
    decimal(r as nat) + seq![SPACE] + decimal(g as nat) + seq![SPACE] + decimal(b as nat) + seq![
        LINE_FEED,
    ]
}

/// The lines of the first `upto` pixels, in their order.
pub open spec fn pixel_lines(pixels: Seq<u32>, upto: int) -> Seq<u8>
    decreases upto,
{
    if upto <= 0 {
        Seq::empty()
    } else {
        pixel_lines(pixels, upto - 1) + pixel_line(pixels[upto - 1])
    }
}

/// The image of a canvas: the header, then the line of each pixel, row by
/// row.
pub open spec fn image(canvas: Canvas) -> Seq<u8> {
    header(canvas.width, canvas.height) + pixel_lines(canvas.pixels, canvas.pixels.len() as int)
}

/// Appends the digits of `n` to `out`.
pub fn push_decimal(out: &mut Vec<u8>, n: usize)
    ensures
        final(out)@ == old(out)@ + decimal(n as nat),
    decreases n,
{
    if n >= 10 {
        push_decimal(out, n / 10);
    }
    let digit: u8 = (n % 10) as u8;
    out.push(DIGIT_ZERO + digit);
    assert(out@ =~= old(out)@ + decimal(n as nat));
}

/// Appends the line of one pixel to `out`.
pub fn push_pixel_line(out: &mut Vec<u8>, hex: u32)
    ensures
        final(out)@ == old(out)@ + pixel_line(hex),
{
    let (r, g, b, _a) = decode_color(hex);
    push_decimal(out, r as usize);
    out.push(SPACE);
    push_decimal(out, g as usize);
    out.push(SPACE);
    push_decimal(out, b as usize);
    out.push(LINE_FEED);
    assert(out@ =~= old(out)@ + pixel_line(hex));
}

/// Writes a canvas out as an image.
pub fn buffer_to_image(buffer: &Framebuffer) -> (bytes: Vec<u8>)
    ensures
        bytes@ == image(buffer@),
{
    let mut bytes: Vec<u8> = Vec::new();
    bytes.push(LETTER_P);
    push_decimal(&mut bytes, 3);
    bytes.push(LINE_FEED);
    push_decimal(&mut bytes, buffer.width());
    bytes.push(SPACE);
    push_decimal(&mut bytes, buffer.height());
    bytes.push(LINE_FEED);
    push_decimal(&mut bytes, 255);
    bytes.push(LINE_FEED);
    assert(bytes@ =~= header(buffer@.width, buffer@.height));
    let pixels = buffer.pixels();
    let n: usize = pixels.len();
    let mut i: usize = 0;
    while i < n
        invariant
            i <= n == pixels.len(),
            pixels@ == buffer@.pixels,
            bytes@ == header(buffer@.width, buffer@.height) + pixel_lines(pixels@, i as int),
        decreases n - i,
    {
        push_pixel_line(&mut bytes, pixels[i]);
        assert(bytes@ =~= header(buffer@.width, buffer@.height) + pixel_lines(
            pixels@,
            i as int + 1,
        ));
        i += 1;
    }
    bytes
}

} // verus!
