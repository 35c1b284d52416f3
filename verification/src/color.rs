//! Colour emission: linear-to-display conversion and byte quantisation.
//!
//! A pixel line is the decimal bytes of three quantised channels separated
//! by spaces and closed by a newline, exactly as the plain-text image format
//! wants them.

use vstd::prelude::*;
use crate::fx::{Fx, FX_ONE, fsqrt, lemma_sqrt_floor};
use crate::interval::Interval;
use crate::vec3::{Vec3, V3};

verus! {

/// The largest clamped intensity: just below one, so a full channel maps to
/// byte 255 and never to 256.
pub const CLAMP_MAX: i64 = 65470;

/// Gamma correction (gamma two): the square root of a positive intensity,
/// zero otherwise.
pub open spec fn linear_to_gamma_s(c: int) -> int {
    if c > 0 {
        fsqrt(c)
    } else {
        0
    }
}

/// The displayed byte of one linear channel: gamma-correct, clamp into
/// `[0, CLAMP_MAX]`, scale to the byte range.
pub open spec fn color_byte_s(c: int) -> int {
    let g = linear_to_gamma_s(c);
    let cl = if g < 0 {
        0int
    } else if g > CLAMP_MAX as int {
        CLAMP_MAX as int
    } else {
        g
    };
    cl / 256
}

/// Gamma correction, executable.
pub fn linear_to_gamma(linear_component: Fx) -> (r: Fx)
    ensures
        r@ == linear_to_gamma_s(linear_component@),
        r@ >= 0,
    {
    if linear_component.raw > 0 {
        let s: Fx = linear_component.sqrt();
        proof {
            lemma_sqrt_floor(linear_component@ * FX_ONE as int);
        }
        s
    } else {
        Fx::zero()
    }
}

/// A full or overfull channel displays as 255; an empty or negative one as 0.
pub proof fn lemma_color_byte_saturates(c: int)
    ensures
        c >= FX_ONE as int ==> color_byte_s(c) == 255,
        c <= 0 ==> color_byte_s(c) == 0,
{
    if c >= FX_ONE as int {
        lemma_sqrt_floor(c * FX_ONE as int);
        let g = fsqrt(c);
        assert(c * FX_ONE as int >= 0x1_0000_0000int) by (nonlinear_arith)
            requires
                c >= 65536,
        ;
        assert(g >= FX_ONE as int) by (nonlinear_arith)
            requires
                g >= 0,
                (g + 1) * (g + 1) > 0x1_0000_0000int,
        ;
    }
}

/// The byte of one channel.
pub fn color_byte(c: Fx) -> (r: u8)
    ensures
        r as int == color_byte_s(c@),
        c@ >= FX_ONE as int ==> r == 255,
        c@ <= 0 ==> r == 0,
{
    proof {
        lemma_color_byte_saturates(c@);
    }
    let g: Fx = linear_to_gamma(c);
    let intensity: Interval = Interval::new(Fx::zero(), Fx::from_raw(CLAMP_MAX));
    let cl: Fx = intensity.clamp(g);
    ((cl.raw as u64) / 256) as u8
}

/// The decimal digits of a nonnegative integer, most significant first.
pub open spec fn dec_s(n: int) -> Seq<u8>
    decreases n,
{
    if n < 10 {
        seq![(48 + n) as u8]
    } else {
        dec_s(n / 10).push((48 + n % 10) as u8)
    }
}

/// Append the decimal digits of `n`.
pub fn push_dec(out: &mut Vec<u8>, n: u64)
    ensures
        final(out)@ == old(out)@ + dec_s(n as int),
    decreases n,
{
    if n < 10 {
        out.push((48 + n) as u8);
        proof {
            assert(out@ =~= old(out)@ + dec_s(n as int));
        }
    } else {
        push_dec(out, n / 10);
        out.push((48 + n % 10) as u8);
        proof {
            assert(out@ =~= old(out)@ + dec_s(n as int));
        }
    }
}

/// One emitted pixel line: three space-separated decimal bytes, then a
/// newline.
pub open spec fn color_line_s(c: V3) -> Seq<u8> {
    dec_s(color_byte_s(c.x)) + seq![32u8] + dec_s(color_byte_s(c.y)) + seq![32u8] + dec_s(
        color_byte_s(c.z),
    ) + seq![10u8]
}

/// A sequence of bytes shaped like one pixel line: three decimal integers,
/// each between 0 and 255, separated by single spaces, closed by a newline.
pub open spec fn is_color_line(s: Seq<u8>) -> bool {
    exists|a: int, b: int, c: int|
        0 <= a < 256 && 0 <= b < 256 && 0 <= c < 256 && s == #[trigger] line_of(a, b, c)
}

/// The line for three given byte values.
pub open spec fn line_of(a: int, b: int, c: int) -> Seq<u8> {
    dec_s(a) + seq![32u8] + dec_s(b) + seq![32u8] + dec_s(c) + seq![10u8]
}

/// Quantise an accumulated colour and append its pixel line.
pub fn write_color(out: &mut Vec<u8>, pixel_color: Vec3)
    ensures
        final(out)@ == old(out)@ + color_line_s(pixel_color@),
        is_color_line(color_line_s(pixel_color@)),
    {
    let rb: u8 = color_byte(pixel_color.x);
    let gb: u8 = color_byte(pixel_color.y);
    let bb: u8 = color_byte(pixel_color.z);
    push_dec(out, rb as u64);
    out.push(32);
    push_dec(out, gb as u64);
    out.push(32);
    push_dec(out, bb as u64);
    out.push(10);
    proof {
        assert(out@ =~= old(out)@ + color_line_s(pixel_color@));
        assert(color_line_s(pixel_color@) == line_of(
            color_byte_s(pixel_color@.x),
            color_byte_s(pixel_color@.y),
            color_byte_s(pixel_color@.z),
        ));
        lemma_color_byte_bounded(pixel_color@.x);
        lemma_color_byte_bounded(pixel_color@.y);
        lemma_color_byte_bounded(pixel_color@.z);
    }
}

/// Every channel byte lies in the byte range.
pub proof fn lemma_color_byte_bounded(c: int)
    ensures
        0 <= color_byte_s(c) < 256,
{
    let g = linear_to_gamma_s(c);
    if c > 0 {
        lemma_sqrt_floor(c * FX_ONE as int);
    }
    let cl = if g < 0 {
        0int
    } else if g > CLAMP_MAX as int {
        CLAMP_MAX as int
    } else {
        g
    };
    vstd::arithmetic::div_mod::lemma_div_pos_is_pos(cl, 256);
    if cl > 0 {
    } else {
        vstd::arithmetic::div_mod::lemma_div_of0(256);
    }
    vstd::arithmetic::div_mod::lemma_div_is_ordered(cl, CLAMP_MAX as int, 256);
}

} // verus!
