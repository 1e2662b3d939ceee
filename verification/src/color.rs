//! Pixels as text: the lines of a plain PPM image.

use vstd::prelude::*;
use crate::scalar::{less, lt, ZERO};

verus! {

/// The decimal digits of `n`, as ASCII.
pub open spec fn digits(n: nat) -> Seq<u8>
    decreases n,
{
    if n < 10 {
        seq![(48 + n) as u8]
    } else {
        digits(n / 10).push((48 + n % 10) as u8)
    }
}

/// `n` in decimal, with a minus sign where it is negative.
pub open spec fn decimal(n: int) -> Seq<u8> {
    if n < 0 {
        seq![45u8] + digits((-n) as nat)
    } else {
        digits(n as nat)
    }
}

/// The line of one pixel: its three channels, separated by spaces.
pub open spec fn pixel_line(r: int, g: int, b: int) -> Seq<u8> {
    decimal(r) + seq![32u8] + decimal(g) + seq![32u8] + decimal(b) + seq![10u8]
}

/// The three lines that open an image: the mark of a plain pixmap in colour,
/// the width and the height, and the largest channel value, 255.
pub open spec fn header(width: int, height: int) -> Seq<u8> {
    seq![80u8, 51u8, 10u8] + decimal(width) + seq![32u8] + decimal(height) + seq![10u8]
        + seq![50u8, 53u8, 53u8, 10u8]
}

/// `gamma` is a value that the gamma transform can give for a linear
/// component: what `root` gives for a component above zero, and zero for
/// every other.
pub open spec fn is_gamma<R: Fn(i64) -> i64>(root: &R, linear_component: i64, gamma: i64) -> bool {
    if lt(ZERO, linear_component) {
        call_ensures(*root, (linear_component,), gamma)
    } else {
        gamma == ZERO
    }
}

/// The gamma transform of a linear component; `root` takes the square root.
pub fn linear_to_gamma<R: Fn(i64) -> i64>(linear_component: i64, root: &R) -> (gamma: i64)
    requires
        forall|x: i64| call_requires(*root, (x,)),
    ensures
        is_gamma(root, linear_component, gamma),
{
    if less(ZERO, linear_component) {
        return root(linear_component);
    }
    ZERO
}

fn push_digits(out: &mut Vec<u8>, n: u32)
    ensures
        final(out)@ == old(out)@ + digits(n as nat),
    decreases n,
{
    if n >= 10 {
        push_digits(out, n / 10);
    }
    let digit: u8 = (48 + n % 10) as u8;
    out.push(digit);
    assert(final(out)@ =~= old(out)@ + digits(n as nat));
}

/// Appends `n` in decimal.
pub fn write_decimal(out: &mut Vec<u8>, n: i32)
    ensures
        final(out)@ == old(out)@ + decimal(n as int),
{
    if n < 0 {
        out.push(45u8);
        let magnitude: u32 = (-(n as i64)) as u32;
        push_digits(out, magnitude);
        assert(final(out)@ =~= old(out)@ + decimal(n as int));
    } else {
        push_digits(out, n as u32);
    }
}

/// Appends the line of one pixel.
pub fn write_color(out: &mut Vec<u8>, rbyte: i32, gbyte: i32, bbyte: i32)
    ensures
        final(out)@ == old(out)@ + pixel_line(rbyte as int, gbyte as int, bbyte as int),
{
    write_decimal(out, rbyte);
    out.push(32u8);
    write_decimal(out, gbyte);
    out.push(32u8);
    write_decimal(out, bbyte);
    out.push(10u8);
    assert(final(out)@ =~= old(out)@ + pixel_line(rbyte as int, gbyte as int, bbyte as int));
}

/// Appends the lines that open an image of `width` by `height` pixels.
pub fn write_header(out: &mut Vec<u8>, width: i32, height: i32)
    ensures
        final(out)@ == old(out)@ + header(width as int, height as int),
{
    out.push(80u8);
    out.push(51u8);
    out.push(10u8);
    write_decimal(out, width);
    out.push(32u8);
    write_decimal(out, height);
    out.push(10u8);
    out.push(50u8);
    out.push(53u8);
    out.push(53u8);
    out.push(10u8);
    assert(final(out)@ =~= old(out)@ + header(width as int, height as int));
}

} // verus!
