//! Colors: clamped fixed-point triples, gamma correction, and the
//! quantization to 8-bit channels with their decimal text form.

use crate::fixed::{div_floor_i64, isqrt_i64, mul_wide, sqrt_floor, FP_ONE};
use crate::vector3::{bounded, Vec3, Vector3f, VEC_BOUND};
use vstd::prelude::*;

verus! {

/// A color channel clamped into the fixed-point interval `[0, 1]`.
pub open spec fn clamp01(c: int) -> int {
    if c < 0 {
        0
    } else if c > FP_ONE as int {
        FP_ONE as int
    } else {
        c
    }
}

/// One gamma-corrected channel: the fixed-point square root of a
/// nonnegative channel, and zero for a nonpositive one.
pub open spec fn gamma_c(c: int) -> int {
    if c <= 0 {
        0
    } else {
        sqrt_floor((c * FP_ONE) as nat) as int
    }
}

/// One channel quantized to 8 bits: `c * 256`, rescaled and clamped.
pub open spec fn byte_of(c: int) -> int {
    let q = (c * 256) / (FP_ONE as int);
    if q < 0 {
        0
    } else if q > 255 {
        255
    } else {
        q
    }
}

/// The decimal digits of a nonnegative number, as ASCII bytes.
pub open spec fn dec_spec(n: nat) -> Seq<u8>
    decreases n,
{
    if n < 10 {
        seq![(n + 48) as u8]
    } else {
        dec_spec(n / 10) + seq![((n % 10) + 48) as u8]
    }
}

/// A color: a vector whose components are fixed-point channel values.
#[derive(Clone, Copy)]
pub struct Color {
    pub vec: Vector3f,
}

/// A quantized color with 8-bit channels.
#[derive(Clone, Copy, PartialEq, Eq, Structural, Debug)]
pub struct Color24b {
    pub r: u8,
    pub g: u8,
    pub b: u8,
}

impl Color {
    /// Build a color, clamping every channel into `[0, 1]`.
    pub fn new(r: i64, g: i64, b: i64) -> (c: Color)
        ensures
            c.vec@ == (Vec3 { x: clamp01(r as int), y: clamp01(g as int), z: clamp01(b as int) }),
    {
        Color {
            vec: Vector3f {
                x: clamp_channel(r),
                y: clamp_channel(g),
                z: clamp_channel(b),
            },
        }
    }

    /// Wrap a vector as a color without clamping.
    pub fn from_vec(vec: Vector3f) -> (c: Color)
        ensures
            c.vec == vec,
    {
        Color { vec }
    }

    /// Pure white.
    pub fn max_color() -> (c: Color)
        ensures
            c.vec@ == (Vec3 { x: FP_ONE as int, y: FP_ONE as int, z: FP_ONE as int }),
    {
        Color::new(FP_ONE, FP_ONE, FP_ONE)
    }

    /// Pure black.
    pub fn min_color() -> (c: Color)
        ensures
            c.vec@ == (Vec3 { x: 0, y: 0, z: 0 }),
    {
        Color::new(0, 0, 0)
    }

    /// Approximate gamma-2 correction: the square root of each channel.
    pub fn gamma_two_correct(&mut self) -> (c: Color)
        requires
            bounded(old(self).vec@, VEC_BOUND as int),
        ensures
            final(self).vec@ == (Vec3 {
                x: gamma_c(old(self).vec@.x),
                y: gamma_c(old(self).vec@.y),
                z: gamma_c(old(self).vec@.z),
            }),
            c == *final(self),
    {
        let corrected = Color {
            vec: Vector3f {
                x: gamma_channel(self.vec.x),
                y: gamma_channel(self.vec.y),
                z: gamma_channel(self.vec.z),
            },
        };
        *self = corrected;
        corrected
    }

    /// Quantize to 8-bit channels.
    pub fn to_24_bit(&self) -> (c: Color24b)
        requires
            bounded(self.vec@, VEC_BOUND as int),
        ensures
            c.r == byte_of(self.vec@.x),
            c.g == byte_of(self.vec@.y),
            c.b == byte_of(self.vec@.z),
    {
        Color24b {
            r: byte_channel(self.vec.x),
            g: byte_channel(self.vec.y),
            b: byte_channel(self.vec.z),
        }
    }
}

/// Clamp one channel into `[0, FP_ONE]`.
fn clamp_channel(c: i64) -> (r: i64)
    ensures
        r == clamp01(c as int),
{
    if c < 0 {
        0
    } else if c > FP_ONE {
        FP_ONE
    } else {
        c
    }
}

/// One gamma-corrected channel.
fn gamma_channel(c: i64) -> (r: i64)
    requires
        -(VEC_BOUND as int) <= c <= VEC_BOUND as int,
    ensures
        r == gamma_c(c as int),
{
    if c <= 0 {
        0
    } else {
        isqrt_i64((mul_wide(c, FP_ONE)) as i64)
    }
}

/// One quantized channel.
fn byte_channel(c: i64) -> (r: u8)
    requires
        -(VEC_BOUND as int) <= c <= VEC_BOUND as int,
    ensures
        r == byte_of(c as int),
{
    let q = div_floor_i64(c * 256, FP_ONE);
    proof {
        crate::fixed::lemma_div_stays_in_range((c * 256) as int, FP_ONE as int);
    }
    if q < 0 {
        0
    } else if q > 255 {
        255
    } else {
        q as u8
    }
}

/// A gamma-corrected unit-interval channel stays in the unit interval.
pub proof fn lemma_gamma_unit(c: int)
    requires
        0 <= c <= FP_ONE as int,
    ensures
        0 <= gamma_c(c) <= FP_ONE as int,
{
    if c <= 0 {
    } else {
        crate::fixed::lemma_sqrt_floor((c * FP_ONE) as nat);
        let s = sqrt_floor((c * FP_ONE) as nat);
        assert(s <= FP_ONE) by (nonlinear_arith)
            requires
                s * s <= c * FP_ONE,
                0 < c <= FP_ONE as int,
                FP_ONE == 65536,
                s >= 0,
        ;
    }
}

/// Append the decimal digits of `n` to `buf`.
pub fn push_decimal(buf: &mut Vec<u8>, n: u32)
    ensures
        final(buf)@ == old(buf)@ + dec_spec(n as nat),
    decreases n,
{
    if n >= 10 {
        push_decimal(buf, n / 10);
    }
    buf.push((n % 10) as u8 + 48);
    proof {
        assert(buf@ =~= old(buf)@ + dec_spec(n as nat));
    }
}

impl Color24b {
    /// Build from wide channel values in `[0, 256)`, clamping into range.
    pub fn new_from_i64(r: i64, g: i64, b: i64) -> (c: Color24b)
        ensures
            c.r == if r < 0 { 0int } else if r > 255 { 255int } else { r as int },
            c.g == if g < 0 { 0int } else if g > 255 { 255int } else { g as int },
            c.b == if b < 0 { 0int } else if b > 255 { 255int } else { b as int },
    {
        Color24b { r: clamp_byte(r), g: clamp_byte(g), b: clamp_byte(b) }
    }

    /// Append this color as one image row entry: the three channels in
    /// decimal, space-separated, with a trailing newline.
    pub fn write(&self, buffer: &mut Vec<u8>)
        ensures
            final(buffer)@ == old(buffer)@ + dec_spec(self.r as nat) + seq![32u8] + dec_spec(
                self.g as nat,
            ) + seq![32u8] + dec_spec(self.b as nat) + seq![10u8],
    {
        push_decimal(buffer, self.r as u32);
        buffer.push(32);
        push_decimal(buffer, self.g as u32);
        buffer.push(32);
        push_decimal(buffer, self.b as u32);
        buffer.push(10);
        proof {
            assert(buffer@ =~= old(buffer)@ + dec_spec(self.r as nat) + seq![32u8] + dec_spec(
                self.g as nat,
            ) + seq![32u8] + dec_spec(self.b as nat) + seq![10u8]);
        }
    }
}

/// Clamp a wide channel value into `[0, 255]`.
fn clamp_byte(c: i64) -> (r: u8)
    ensures
        r == if c < 0 { 0int } else if c > 255 { 255int } else { c as int },
{
    if c < 0 {
        0
    } else if c > 255 {
        255
    } else {
        c as u8
    }
}

pub trait ToColor: View<V = Vec3> {
    /// Wrap this value as a color, without clamping.
    fn to_color(&self) -> (c: Color)
        ensures
            c.vec@ == self.view(),
    ;
}

impl ToColor for Vector3f {
    fn to_color(&self) -> (c: Color) {
        Color::from_vec(*self)
    }
}

} // verus!
