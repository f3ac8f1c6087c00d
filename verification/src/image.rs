//! The plain text image format: a header, then one line per pixel.

use crate::utils::helpers::{color_to_rgb, color_to_rgb_spec, Rgb};
use crate::vec3::Color3;
use vstd::prelude::*;

verus! {

/// `String::push` appends one character to the end of the string and
/// leaves the rest as it was.
pub assume_specification[ String::push ](s: &mut String, ch: char)
    ensures
        final(s)@ == old(s)@.push(ch),
;

/// The character that stands for a digit.
pub open spec fn digit_char(d: int) -> char {
    if d == 0 {
        '0'
    } else if d == 1 {
        '1'
    } else if d == 2 {
        '2'
    } else if d == 3 {
        '3'
    } else if d == 4 {
        '4'
    } else if d == 5 {
        '5'
    } else if d == 6 {
        '6'
    } else if d == 7 {
        '7'
    } else if d == 8 {
        '8'
    } else {
        '9'
    }
}

/// The decimal numeral of a natural number, without leading zeros.
pub open spec fn decimal(n: nat) -> Seq<char>
    decreases n,
{
    if n < 10 {
        seq![digit_char(n as int)]
    } else {
        decimal(n / 10).push(digit_char((n % 10) as int))
    }
}

/// The line of a pixel: its three levels in decimal, separated by single
/// spaces, and a line feed.
pub open spec fn ppm_line(pixel: Rgb) -> Seq<char> {
    decimal(pixel.r as nat) + seq![' '] + decimal(pixel.g as nat) + seq![' '] + decimal(
        pixel.b as nat,
    ) + seq!['\n']
}

/// The header of an image of the given size with levels up to 255.
pub open spec fn ppm_header_spec(width: u32, height: u32) -> Seq<char> {
    seq!['P', '3', '\n'] + decimal(width as nat) + seq![' '] + decimal(height as nat) + seq![
        '\n',
        '2',
        '5',
        '5',
        '\n',
    ]
}

/// The character of one digit.
fn digit(d: u32) -> (r: char)
    requires
        d < 10,
    ensures
        r == digit_char(d as int),
{
    if d == 0 {
        '0'
    } else if d == 1 {
        '1'
    } else if d == 2 {
        '2'
    } else if d == 3 {
        '3'
    } else if d == 4 {
        '4'
    } else if d == 5 {
        '5'
    } else if d == 6 {
        '6'
    } else if d == 7 {
        '7'
    } else if d == 8 {
        '8'
    } else {
        '9'
    }
}

/// Appends the decimal numeral of `n` to `out`.
pub fn push_decimal(out: &mut String, n: u32)
    ensures
        final(out)@ == old(out)@ + decimal(n as nat),
    decreases n,
{
    if n >= 10 {
        push_decimal(out, n / 10);
    }
    out.push(digit(n % 10));
    assert(final(out)@ =~= old(out)@ + decimal(n as nat));
}

/// Appends the line of a pixel to `out`.
pub fn push_pixel(out: &mut String, pixel: &Rgb)
    ensures
        final(out)@ == old(out)@ + ppm_line(*pixel),
{
    push_decimal(out, pixel.r as u32);
    out.push(' ');
    push_decimal(out, pixel.g as u32);
    out.push(' ');
    push_decimal(out, pixel.b as u32);
    out.push('\n');
    assert(final(out)@ =~= old(out)@ + ppm_line(*pixel));
}

/// The line of the image format for a linear color: the color is
/// gamma-encoded and scaled to 256 levels first.
pub fn color_to_ppm(color: &Color3) -> (r: String)
    ensures
        r@ == ppm_line(color_to_rgb_spec(*color)),
{
    let mut line = String::new();
    push_pixel(&mut line, &color_to_rgb(color));
    assert(line@ =~= ppm_line(color_to_rgb_spec(*color)));
    line
}

/// The header of an image of the given size.
pub fn ppm_header(width: u32, height: u32) -> (r: String)
    ensures
        r@ == ppm_header_spec(width, height),
{
    let mut header = String::new();
    header.push('P');
    header.push('3');
    header.push('\n');
    push_decimal(&mut header, width);
    header.push(' ');
    push_decimal(&mut header, height);
    header.push('\n');
    header.push('2');
    header.push('5');
    header.push('5');
    header.push('\n');
    assert(header@ =~= ppm_header_spec(width, height));
    header
}

/// The lines of the first `n` pixels, one after the other.
pub open spec fn ppm_lines(pixels: Seq<Rgb>, n: int) -> Seq<char>
    decreases n,
{
    if n <= 0 {
        Seq::empty()
    } else {
        ppm_lines(pixels, n - 1) + ppm_line(pixels[n - 1])
    }
}

/// The text of an image: the header, then the line of each pixel in order.
pub fn ppm_text(width: u32, height: u32, pixels: &Vec<Rgb>) -> (r: String)
    ensures
        r@ == ppm_header_spec(width, height) + ppm_lines(pixels@, pixels@.len() as int),
{
    let mut text = ppm_header(width, height);
    let mut i: usize = 0;
    while i < pixels.len()
        invariant
            i <= pixels@.len(),
            text@ == ppm_header_spec(width, height) + ppm_lines(pixels@, i as int),
        decreases pixels@.len() - i,
    {
        push_pixel(&mut text, &pixels[i]);
        i = i + 1;
        assert(text@ =~= ppm_header_spec(width, height) + ppm_lines(pixels@, i as int));
    }
    text
}

} // verus!
