//! Colours with 8-bit channels and their weighted mix.

use crate::number::Number;
use vstd::prelude::*;

verus! {

/// An RGB colour with 8-bit channels.
#[derive(Copy, Clone, Debug, PartialEq, Eq, Structural)]
pub struct Color {
    pub r: u8,
    pub g: u8,
    pub b: u8,
}

/// The integer nearest to `n / d`, for `n >= 0` and `d > 0`; a tie goes up.
pub open spec fn round_div(n: int, d: int) -> int {
    (2 * n + d) / (2 * d)
}

/// `v` cut off at the ends of the 8-bit range.
pub open spec fn clamp_channel(v: int) -> int {
    if v < 0 {
        0
    } else if v > 255 {
        255
    } else {
        v
    }
}

/// One channel of a mix: `a` percent of `x` and `b` percent of `y`, rounded to
/// the nearest integer and cut off at 255.
pub open spec fn mix_channel(a: int, x: int, b: int, y: int) -> int {
    clamp_channel(round_div(a * x + b * y, 100))
}

/// The mix of `a` percent of `c1` and `b` percent of `c2`, channel by channel.
pub open spec fn mix(a: int, c1: Color, b: int, c2: Color) -> Color {
    Color {
        r: mix_channel(a, c1.r as int, b, c2.r as int) as u8,
        g: mix_channel(a, c1.g as int, b, c2.g as int) as u8,
        b: mix_channel(a, c1.b as int, b, c2.b as int) as u8,
    }
}

/// The colour whose channels the three numbers stand for.
pub open spec fn scaled(red: Number, green: Number, blue: Number) -> Color {
    Color { r: red.channel() as u8, g: green.channel() as u8, b: blue.channel() as u8 }
}

/// Makes a colour of three numbers, one for each channel: the products of a
/// colour's channels and a brightness, as a rule.
///
/// Each number is rounded to the nearest integer, a tie going away from zero,
/// and then cut off at 0 and at 255.
pub fn scale_color(red: Number, green: Number, blue: Number) -> (color: Color)
    ensures
        color == scaled(red, green, blue),
{
    Color { r: red.to_channel(), g: green.to_channel(), b: blue.to_channel() }
}

fn mix_one(a: u32, x: u8, b: u32, y: u8) -> (r: u8)
    ensures
        r as int == mix_channel(a as int, x as int, b as int, y as int),
{
    assert(a * x <= 0xffff_ffff * 255 && b * y <= 0xffff_ffff * 255) by (nonlinear_arith)
        requires
            a <= 0xffff_ffff,
            x <= 255,
            b <= 0xffff_ffff,
            y <= 255,
    ;
    let n: u64 = (a as u64) * (x as u64) + (b as u64) * (y as u64);
    let q: u64 = (2 * n + 100) / 200;
    if q > 255 {
        255
    } else {
        q as u8
    }
}

/// Mixes `a` percent of `c1` with `b` percent of `c2`.
///
/// Each channel is the weighted sum, rounded to the nearest integer (a tie
/// goes up) and then cut off at 255. The weights need not add up to 100.
pub fn mix_colors(a: u32, c1: &Color, b: u32, c2: &Color) -> (mixed: Color)
    ensures
        mixed == mix(a as int, *c1, b as int, *c2),
{
    Color {
        r: mix_one(a, c1.r, b, c2.r),
        g: mix_one(a, c1.g, b, c2.g),
        b: mix_one(a, c1.b, b, c2.b),
    }
}

/// `round_div(n, d)` is the integer nearest to the quotient: it differs from
/// `n / d` by half at most, and by exactly half only from below.
pub proof fn lemma_round_div_is_nearest(n: int, d: int)
    requires
        n >= 0,
        d > 0,
    ensures
        2 * d * round_div(n, d) - d <= 2 * n < 2 * d * round_div(n, d) + d,
        round_div(n, d) >= 0,
{
    vstd::arithmetic::div_mod::lemma_fundamental_div_mod(2 * n + d, 2 * d);
    vstd::arithmetic::div_mod::lemma_mod_bound(2 * n + d, 2 * d);
    vstd::arithmetic::div_mod::lemma_div_pos_is_pos(2 * n + d, 2 * d);
}

/// A mix whose weights add up to 100 lies between the two values mixed, so
/// nothing is cut off and no channel leaves the range of its inputs.
pub proof fn lemma_mix_channel_between(a: int, x: int, b: int, y: int)
    requires
        a >= 0,
        b >= 0,
        a + b == 100,
        0 <= x <= 255,
        0 <= y <= 255,
    ensures
        x <= y ==> x <= mix_channel(a, x, b, y) <= y,
        y <= x ==> y <= mix_channel(a, x, b, y) <= x,
        mix_channel(a, x, b, y) == round_div(a * x + b * y, 100),
{
    let n = a * x + b * y;
    let lo = if x <= y { x } else { y };
    let hi = if x <= y { y } else { x };
    assert(100 * lo <= n <= 100 * hi) by (nonlinear_arith)
        requires
            n == a * x + b * y,
            a >= 0,
            b >= 0,
            a + b == 100,
            lo <= x <= hi,
            lo <= y <= hi,
    ;
    lemma_round_div_is_nearest(n, 100);
}

/// Mixing a colour with itself, the weights adding up to 100, gives it back.
pub proof fn lemma_mix_same(a: int, b: int, c: Color)
    requires
        a >= 0,
        b >= 0,
        a + b == 100,
    ensures
        mix(a, c, b, c) == c,
{
    lemma_mix_channel_between(a, c.r as int, b, c.r as int);
    lemma_mix_channel_between(a, c.g as int, b, c.g as int);
    lemma_mix_channel_between(a, c.b as int, b, c.b as int);
}

} // verus!
