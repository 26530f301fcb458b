//! Packed 32-bit ARGB pixels and the arithmetic of source-over blending.

use vstd::prelude::*;

verus! {

/// A pixel: alpha in bits 24 to 31, red in 16 to 23, green in 8 to 15, blue in 0 to 7.
#[derive(Clone, Copy, Debug)]
pub struct Color {
    pub data: u32,
}

/// How a renderer combines what it draws with what the buffer holds.
///
/// The flag is kept per buffer for the code that draws into it; `blend` and
/// `blit` never read it.
#[derive(Clone, Copy, Debug, PartialEq, Eq, Structural)]
pub enum Mode {
    Blend,
    Overwrite,
}

/// The alpha channel, 0 to 255.
pub open spec fn alpha(c: Color) -> int {
    (c.data / 0x100_0000) as int
}

pub open spec fn red(c: Color) -> int {
    (c.data / 0x1_0000 % 0x100) as int
}

pub open spec fn green(c: Color) -> int {
    (c.data / 0x100 % 0x100) as int
}

pub open spec fn blue(c: Color) -> int {
    (c.data % 0x100) as int
}

/// A pixel with a zero alpha channel and the given colour channels.
pub open spec fn pack(r: int, g: int, b: int) -> int {
    r * 0x1_0000 + g * 0x100 + b
}

/// A channel value weighted by `factor / 256`, rounded down.
pub open spec fn scaled(channel: int, factor: int) -> int {
    (channel * factor) / 256
}

/// One channel of a blend: the source weighted by `a`, the destination by `255 - a`.
pub open spec fn mix(below: int, above: int, a: int) -> int {
    scaled(above, a) + scaled(below, 255 - a)
}

/// The pixel that results from laying `above` over `below`.
///
/// A fully opaque source replaces the destination and a fully transparent one
/// leaves it. In between, every colour channel is mixed in 8-bit fixed point
/// and the alpha channel of the result is zero.
pub open spec fn blend_color(below: Color, above: Color) -> Color {
    let a = alpha(above);
    if a >= 255 {
        above
    } else if a > 0 {
        Color {
            data: pack(
                mix(red(below), red(above), a),
                mix(green(below), green(above), a),
                mix(blue(below), blue(above), a),
            ) as u32,
        }
    } else {
        below
    }
}

/// Calls `orbclient::Color::rgb` and hands back the packed value it built:
/// an opaque pixel whose colour channels are the three arguments.
#[verifier::external_body]
fn opaque_rgb(r: u8, g: u8, b: u8) -> (data: u32)
    ensures
        data == 0xFF00_0000 + pack(r as int, g as int, b as int),
{
    orbclient::Color::rgb(r, g, b).data
}

fn channel(data: u32, shift: u32) -> (c: u32)
    requires
        shift == 0 || shift == 8 || shift == 16 || shift == 24,
    ensures
        c <= 255,
        shift == 0 ==> c == data % 0x100,
        shift == 8 ==> c == data / 0x100 % 0x100,
        shift == 16 ==> c == data / 0x1_0000 % 0x100,
        shift == 24 ==> c == data / 0x100_0000,
{
    let c: u32 = (data >> shift) & 0xFF;
    assert(c <= 255 && (shift == 0 ==> c == data % 0x100) && (shift == 8 ==> c == data / 0x100
        % 0x100) && (shift == 16 ==> c == data / 0x1_0000 % 0x100) && (shift == 24 ==> c == data
        / 0x100_0000)) by (bit_vector)
        requires
            c == (data >> shift) & 0xFF,
            shift == 0 || shift == 8 || shift == 16 || shift == 24,
    ;
    c
}

fn scale(c: u32, factor: u32) -> (s: u32)
    requires
        c <= 255,
        factor <= 255,
    ensures
        s == scaled(c as int, factor as int),
        s <= 254,
{
    assert(c * factor <= 255 * 255) by (nonlinear_arith)
        requires
            c <= 255,
            factor <= 255,
    ;
    let p: u32 = c * factor;
    let s: u32 = p >> 8;
    assert(s == p / 256) by (bit_vector)
        requires
            s == p >> 8,
    ;
    s
}

fn join(r: u32, g: u32, b: u32) -> (data: u32)
    requires
        r <= 255,
        g <= 255,
        b <= 255,
    ensures
        data == pack(r as int, g as int, b as int),
        data < 0x100_0000,
{
    let data: u32 = (r << 16) | (g << 8) | b;
    assert(data == r * 0x1_0000 + g * 0x100 + b && data < 0x100_0000) by (bit_vector)
        requires
            data == (r << 16) | (g << 8) | b,
            r <= 255,
            g <= 255,
            b <= 255,
    ;
    data
}

impl Color {
    /// An opaque pixel with the given colour channels.
    pub fn rgb(r: u8, g: u8, b: u8) -> (c: Color)
        ensures
            c.data == 0xFF00_0000 + pack(r as int, g as int, b as int),
            alpha(c) == 255,
            red(c) == r,
            green(c) == g,
            blue(c) == b,
    {
        let data = opaque_rgb(r, g, b);
        assert(data / 0x100_0000 == 255 && data / 0x1_0000 % 0x100 == r && data / 0x100 % 0x100
            == g && data % 0x100 == b) by (nonlinear_arith)
            requires
                data == 0xFF00_0000 + (r * 0x1_0000 + g * 0x100 + b),
                r <= 255,
                g <= 255,
                b <= 255,
        ;
        Color { data }
    }

    /// Lays `above` over `self` and returns the resulting pixel.
    pub fn blend(self, above: Color) -> (out: Color)
        ensures
            out == blend_color(self, above),
    {
        let a = channel(above.data, 24);
        if a >= 255 {
            above
        } else if a > 0 {
            let n_r = scale(channel(above.data, 16), a);
            let n_g = scale(channel(above.data, 8), a);
            let n_b = scale(channel(above.data, 0), a);
            let rest: u32 = 255 - a;
            let o_r = scale(channel(self.data, 16), rest);
            let o_g = scale(channel(self.data, 8), rest);
            let o_b = scale(channel(self.data, 0), rest);
            let data: u32 = join(o_r, o_g, o_b) + join(n_r, n_g, n_b);
            Color { data }
        } else {
            self
        }
    }
}

} // verus!
