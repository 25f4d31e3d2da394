//! Colours: packing three channels into a pixel, blending two colours, and
//! drawing a bright colour at random.

use crate::random::gen_range;
use vstd::prelude::*;

verus! {

/// The colour at the top of the gradient laid down while the grid fills: white.
pub const COLOR_START: (u8, u8, u8) = (255, 255, 255);

/// The colour at the bottom of that gradient: black.
pub const COLOR_END: (u8, u8, u8) = (0, 0, 0);

/// A pixel: red in bits 16 to 23, green in bits 8 to 15, blue in bits 0 to 7,
/// the top eight bits clear.
pub open spec fn pack_rgb(red: int, green: int, blue: int) -> int {
    red * 65536 + green * 256 + blue
}

/// The red channel of a pixel.
pub open spec fn red_of(color: int) -> int {
    (color / 65536) % 256
}

/// The green channel of a pixel.
pub open spec fn green_of(color: int) -> int {
    (color / 256) % 256
}

/// The blue channel of a pixel.
pub open spec fn blue_of(color: int) -> int {
    color % 256
}

/// One channel of the blend of `start` and `end` at the ratio `num / den`:
/// `start + (end - start) * num / den`, rounded down.
pub open spec fn blend_channel(start: int, end: int, num: int, den: int) -> int {
    (start * (den - num) + end * num) / den
}

/// The blend of two colours at the ratio `num / den`, channel by channel.
pub open spec fn interpolate_spec(
    start: (u8, u8, u8),
    end: (u8, u8, u8),
    num: int,
    den: int,
) -> int {
    pack_rgb(
        blend_channel(start.0 as int, end.0 as int, num, den),
        blend_channel(start.1 as int, end.1 as int, num, den),
        blend_channel(start.2 as int, end.2 as int, num, den),
    )
}

/// A bright colour has every channel in `128..=255` and its top byte clear.
pub open spec fn is_bright(color: u32) -> bool {
    &&& color < 0x1000000
    &&& 128 <= red_of(color as int) <= 255
    &&& 128 <= green_of(color as int) <= 255
    &&& 128 <= blue_of(color as int) <= 255
}

/// A blended channel lies between its two ends.
pub proof fn lemma_blend_channel_bounds(start: int, end: int, num: int, den: int)
    by (nonlinear_arith)
    requires
        0 <= num <= den,
        0 < den,
        0 <= start <= 255,
        0 <= end <= 255,
    ensures
        0 <= start * (den - num) + end * num <= 255 * den,
        0 <= start * (den - num) <= 255 * den,
        0 <= end * num <= 255 * den,
        0 <= blend_channel(start, end, num, den) <= 255,
        start <= end ==> start <= blend_channel(start, end, num, den) <= end,
        end <= start ==> end <= blend_channel(start, end, num, den) <= start,
{
}

/// The channels of a packed pixel are the ones it was packed from.
pub proof fn lemma_pack_channels(red: int, green: int, blue: int)
    requires
        0 <= red <= 255,
        0 <= green <= 255,
        0 <= blue <= 255,
    ensures
        0 <= pack_rgb(red, green, blue) < 0x1000000,
        red_of(pack_rgb(red, green, blue)) == red,
        green_of(pack_rgb(red, green, blue)) == green,
        blue_of(pack_rgb(red, green, blue)) == blue,
{
}

/// Rounding down keeps the order of two fractions.
proof fn lemma_floor_keeps_order(m1: int, d1: int, m2: int, d2: int)
    by (nonlinear_arith)
    requires
        0 < d1,
        0 < d2,
        m1 * d2 <= m2 * d1,
    ensures
        m1 / d1 <= m2 / d2,
{
    let q1 = m1 / d1;
    let q2 = m2 / d2;
    assert(m1 == d1 * q1 + m1 % d1 && 0 <= m1 % d1 < d1) by {
        vstd::arithmetic::div_mod::lemma_fundamental_div_mod(m1, d1);
    }
    assert(m2 == d2 * q2 + m2 % d2 && 0 <= m2 % d2 < d2) by {
        vstd::arithmetic::div_mod::lemma_fundamental_div_mod(m2, d2);
    }
    if q1 > q2 {
        assert(q1 >= q2 + 1);
        assert(m1 * d2 >= (d1 * q1) * d2);
        assert((d1 * q1) * d2 >= (d1 * (q2 + 1)) * d2);
        assert(m2 * d1 < (d2 * (q2 + 1)) * d1);
        assert((d1 * (q2 + 1)) * d2 == (d2 * (q2 + 1)) * d1);
    }
}

/// At the ratio 0 a blend is its first colour, at the ratio 1 its second.
pub proof fn lemma_interpolate_endpoints(start: (u8, u8, u8), end: (u8, u8, u8), den: int)
    requires
        0 < den,
    ensures
        interpolate_spec(start, end, 0, den) == pack_rgb(
            start.0 as int,
            start.1 as int,
            start.2 as int,
        ),
        interpolate_spec(start, end, den, den) == pack_rgb(end.0 as int, end.1 as int, end.2 as int),
{
    lemma_blend_channel_ends(start.0 as int, end.0 as int, den);
    lemma_blend_channel_ends(start.1 as int, end.1 as int, den);
    lemma_blend_channel_ends(start.2 as int, end.2 as int, den);
}

/// At the ratio 0 a blended channel is its start, at the ratio 1 its end.
pub proof fn lemma_blend_channel_ends(start: int, end: int, den: int)
    by (nonlinear_arith)
    requires
        0 < den,
    ensures
        blend_channel(start, end, 0, den) == start,
        blend_channel(start, end, den, den) == end,
{
    assert(start * (den - 0) + end * 0 == start * den);
    assert(start * (den - den) + end * den == end * den);
    assert((start * den) / den == start);
    assert((end * den) / den == end);
}

/// Each channel of a blend moves monotonically from its start to its end as
/// the ratio grows: for ratios `n1 / d1 <= n2 / d2`, the channel at the second
/// ratio lies on the side of `end`.
pub proof fn lemma_blend_monotonic(start: int, end: int, n1: int, d1: int, n2: int, d2: int)
    requires
        0 <= n1 <= d1,
        0 <= n2 <= d2,
        0 < d1,
        0 < d2,
        n1 * d2 <= n2 * d1,
    ensures
        start <= end ==> blend_channel(start, end, n1, d1) <= blend_channel(start, end, n2, d2),
        end <= start ==> blend_channel(start, end, n1, d1) >= blend_channel(start, end, n2, d2),
{
    let m1 = start * (d1 - n1) + end * n1;
    let m2 = start * (d2 - n2) + end * n2;
    let k = end - start;
    assert(m1 == start * d1 + k * n1) by (nonlinear_arith)
        requires
            m1 == start * (d1 - n1) + end * n1,
            k == end - start,
    ;
    assert(m2 == start * d2 + k * n2) by (nonlinear_arith)
        requires
            m2 == start * (d2 - n2) + end * n2,
            k == end - start,
    ;
    let sd = start * d1 * d2;
    assert(m1 * d2 == sd + k * (n1 * d2)) by (nonlinear_arith)
        requires
            m1 == start * d1 + k * n1,
            sd == start * d1 * d2,
    ;
    assert(m2 * d1 == sd + k * (n2 * d1)) by (nonlinear_arith)
        requires
            m2 == start * d2 + k * n2,
            sd == start * d1 * d2,
    ;
    assert(k * (n1 * d2) - k * (n2 * d1) == k * (n1 * d2 - n2 * d1)) by (nonlinear_arith);
    assert(m1 * d2 - m2 * d1 == (end - start) * (n1 * d2 - n2 * d1));
    if start <= end {
        assert((end - start) * (n1 * d2 - n2 * d1) <= 0) by (nonlinear_arith)
            requires
                start <= end,
                n1 * d2 <= n2 * d1,
        ;
        lemma_floor_keeps_order(m1, d1, m2, d2);
    }
    if end <= start {
        assert((end - start) * (n1 * d2 - n2 * d1) >= 0) by (nonlinear_arith)
            requires
                end <= start,
                n1 * d2 <= n2 * d1,
        ;
        lemma_floor_keeps_order(m2, d2, m1, d1);
    }
}

/// Packs three channels into one pixel.
pub fn pack(red: u32, green: u32, blue: u32) -> (color: u32)
    requires
        red <= 255,
        green <= 255,
        blue <= 255,
    ensures
        color == pack_rgb(red as int, green as int, blue as int),
{
    assert(((red << 16) | (green << 8) | blue) == red * 65536 + green * 256 + blue)
        by (bit_vector)
        requires
            red <= 255,
            green <= 255,
            blue <= 255,
    ;
    (red << 16) | (green << 8) | blue
}

/// Blends one channel at the ratio `num / den`.
fn blend(start: u8, end: u8, num: usize, den: usize) -> (channel: u32)
    requires
        0 < den,
        num <= den,
    ensures
        channel == blend_channel(start as int, end as int, num as int, den as int),
        channel <= 255,
{
    proof {
        lemma_blend_channel_bounds(start as int, end as int, num as int, den as int);
    }
    let from_start = (start as u128) * ((den - num) as u128);
    let from_end = (end as u128) * (num as u128);
    ((from_start + from_end) / (den as u128)) as u32
}

/// Blends `start` and `end` linearly, channel by channel, at the ratio
/// `num / den`: at 0 the result is `start`, at 1 it is `end`.
pub fn interpolate_color(start: (u8, u8, u8), end: (u8, u8, u8), num: usize, den: usize) -> (color:
    u32)
    requires
        0 < den,
        num <= den,
    ensures
        color == interpolate_spec(start, end, num as int, den as int),
{
    let r = blend(start.0, end.0, num, den);
    let g = blend(start.1, end.1, num, den);
    let b = blend(start.2, end.2, num, den);
    pack(r, g, b)
}

/// Draws a bright colour: each channel comes from its own draw from
/// `128..=255`.
pub fn generate_random_color(rng: &mut rand::rngs::ThreadRng) -> (color: u32)
    ensures
        is_bright(color),
{
    let r = gen_range(rng, 128, 256) as u32;
    let g = gen_range(rng, 128, 256) as u32;
    let b = gen_range(rng, 128, 256) as u32;
    proof {
        lemma_pack_channels(r as int, g as int, b as int);
    }
    pack(r, g, b)
}

} // verus!
