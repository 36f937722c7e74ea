//! Images as text, in the plain PPM format.

use vstd::prelude::*;
use crate::raster::{Raster, Rgb};

verus! {

/// The decimal digits of `n`, as ASCII, without leading zeros.
pub open spec fn decimal(n: nat) -> Seq<u8>
    decreases n,
{
    if n < 10 {
        seq![(48 + n) as u8]
    } else {
        decimal(n / 10).push((48 + n % 10) as u8)
    }
}

/// The number that a run of decimal digits stands for.
pub open spec fn number(digits: Seq<u8>) -> nat
    decreases digits.len(),
{
    if digits.len() == 0 {
        0
    } else {
        (number(digits.drop_last()) * 10 + (digits.last() - 48)) as nat
    }
}

/// The line of one pixel: its three channels in decimal, with a blank
/// between and a line feed behind.
pub open spec fn pixel_line(color: Rgb) -> Seq<u8> {
    decimal(color.r as nat) + seq![32u8] + decimal(color.g as nat) + seq![32u8] + decimal(
        color.b as nat,
    ) + seq![10u8]
}

/// The head of the file: the format's name, the image's width and height,
/// and the greatest value of a channel, each on a line of its own but for
/// width and height, which share one.
pub open spec fn header(width: nat, height: nat) -> Seq<u8> {
    seq![80u8, 51u8, 10u8] + decimal(width) + seq![32u8] + decimal(height) + seq![
        10u8,
        50u8,
        53u8,
        53u8,
        10u8,
    ]
}

/// The lines of the first `count` pixels.
pub open spec fn pixel_lines(pixels: Seq<Rgb>, count: nat) -> Seq<u8>
    decreases count,
{
    if count == 0 {
        Seq::empty()
    } else {
        pixel_lines(pixels, (count - 1) as nat) + pixel_line(pixels[count - 1])
    }
}

/// The whole file: the head, then a line for each pixel, row after row.
pub open spec fn ppm_text(image: Raster) -> Seq<u8> {
    header(image.columns(), image.rows()) + pixel_lines(image.pixels(), image.pixels().len())
}

/// The digits written for a number read back as that number, and there are
/// no more of them than the number needs.
pub proof fn lemma_decimal_reads_back(n: nat)
    ensures
        number(decimal(n)) == n,
        decimal(n).len() >= 1,
        forall|i: int| 0 <= i < decimal(n).len() ==> 48 <= #[trigger] decimal(n)[i] <= 57,
        n >= 10 ==> decimal(n)[0] != 48,
    decreases n,
{
    if n < 10 {
        let digits = decimal(n);
        assert(digits.drop_last().len() == 0);
        assert(number(digits.drop_last()) == 0);
    } else {
        lemma_decimal_reads_back(n / 10);
        let front = decimal(n / 10);
        let digits = decimal(n);
        assert(digits.drop_last() =~= front);
        assert(digits[0] == front[0]);
        if n / 10 < 10 {
            assert(front[0] == (48 + n / 10) as u8);
        }
    }
}

/// Writes the decimal digits of `n` behind what `out` holds.
pub fn push_decimal(out: &mut Vec<u8>, n: u32)
    ensures
        final(out)@ == old(out)@ + decimal(n as nat),
    decreases n,
{
    if n >= 10 {
        push_decimal(out, n / 10);
    }
    let digit = (n % 10) as u8;
    out.push(48 + digit);
    proof {
        if n >= 10 {
            assert(final(out)@ =~= old(out)@ + decimal((n / 10) as nat).push((48 + n % 10) as u8));
        } else {
            assert(final(out)@ =~= old(out)@ + seq![(48 + n) as u8]);
        }
    }
}

/// Writes the line of one pixel behind what `out` holds.
fn push_pixel_line(out: &mut Vec<u8>, color: Rgb)
    ensures
        final(out)@ == old(out)@ + pixel_line(color),
{
    push_decimal(out, color.r as u32);
    out.push(32);
    push_decimal(out, color.g as u32);
    out.push(32);
    push_decimal(out, color.b as u32);
    out.push(10);
    assert(final(out)@ =~= old(out)@ + pixel_line(color));
}

/// The image as the text of a plain PPM file.
pub fn image_to_ppm(image: &Raster) -> (text: Vec<u8>)
    requires
        image.wf(),
    ensures
        text@ == ppm_text(*image),
{
    let width = image.width();
    let height = image.height();
    let mut text: Vec<u8> = Vec::new();
    text.push(80);
    text.push(51);
    text.push(10);
    push_decimal(&mut text, width);
    text.push(32);
    push_decimal(&mut text, height);
    text.push(10);
    text.push(50);
    text.push(53);
    text.push(53);
    text.push(10);
    assert(text@ =~= header(width as nat, height as nat));
    let mut y: u32 = 0;
    while y < height
        invariant
            image.wf(),
            width == image.columns(),
            height == image.rows(),
            y <= height,
            text@ == header(width as nat, height as nat) + pixel_lines(
                image.pixels(),
                (y * width) as nat,
            ),
        decreases height - y,
    {
        let mut x: u32 = 0;
        while x < width
            invariant
                image.wf(),
                width == image.columns(),
                height == image.rows(),
                y < height,
                x <= width,
                text@ == header(width as nat, height as nat) + pixel_lines(
                    image.pixels(),
                    (y * width + x) as nat,
                ),
            decreases width - x,
        {
            proof {
                image.lemma_offset(x as int, y as int);
            }
            push_pixel_line(&mut text, image.get_pixel(x, y));
            assert(text@ =~= header(width as nat, height as nat) + pixel_lines(
                image.pixels(),
                (y * width + x + 1) as nat,
            ));
            x = x + 1;
        }
        assert((y + 1) * width == y * width + width) by (nonlinear_arith);
        y = y + 1;
    }
    assert(height * width == image.pixels().len()) by (nonlinear_arith)
        requires
            image.pixels().len() == width * height,
    ;
    text
}

} // verus!
