//! Packed RGBA colours: one `u32` per pixel, red in the top byte.

use vstd::prelude::*;
use vstd::arithmetic::div_mod::lemma_fundamental_div_mod_converse;

verus! {

/// The packed value of four channels, as a number.
pub open spec fn packed(r: u8, g: u8, b: u8, a: u8) -> int {
    r * 0x100_0000 + g * 0x1_0000 + b * 0x100 + a
}

/// The four channels of a packed value, red first.
pub open spec fn channels(hex: u32) -> (u8, u8, u8, u8) {
    (
        (hex / 0x100_0000) as u8,
        (hex / 0x1_0000 % 0x100) as u8,
        (hex / 0x100 % 0x100) as u8,
        (hex % 0x100) as u8,
    )
}

/// Splits a packed colour into its red, green, blue and alpha channels.
pub fn decode_color(hex: u32) -> (rgba: (u8, u8, u8, u8))
    ensures
        rgba == channels(hex),
{
    let r: u8 = ((hex & 0xFF000000) >> 24) as u8;
    let g: u8 = ((hex & 0x00FF0000) >> 16) as u8;
    let b: u8 = ((hex & 0x0000FF00) >> 8) as u8;
    let a: u8 = (hex & 0x000000FF) as u8;
    assert((hex & 0xFF000000) >> 24 == hex / 0x100_0000) by (bit_vector);
    assert((hex & 0x00FF0000) >> 16 == hex / 0x1_0000 % 0x100) by (bit_vector);
    assert((hex & 0x0000FF00) >> 8 == hex / 0x100 % 0x100) by (bit_vector);
    assert(hex & 0x000000FF == hex % 0x100) by (bit_vector);
    (r, g, b, a)
}

/// Packs four channels into one colour value.
pub fn encode_color(r: u8, g: u8, b: u8, a: u8) -> (col: u32)
    ensures
        col == packed(r, g, b, a),
{
    let mut col: u32 = 0;
    col |= (r as u32) << 24;
    col |= (g as u32) << 16;
    col |= (b as u32) << 8;
    col |= a as u32;
    assert((((0u32 | (r as u32) << 24) | (g as u32) << 16) | (b as u32) << 8) | (a as u32)
        == r * 0x100_0000 + g * 0x1_0000 + b * 0x100 + a) by (bit_vector);
    col
}

/// Packing four channels and taking the packed value apart again gives
/// the four channels back.
pub proof fn lemma_decode_encode(r: u8, g: u8, b: u8, a: u8)
    ensures
        0 <= packed(r, g, b, a) <= u32::MAX,
        channels(packed(r, g, b, a) as u32) == (r, g, b, a),
{
    let v = packed(r, g, b, a);
    lemma_fundamental_div_mod_converse(v, 0x100_0000, r as int, g * 0x1_0000 + b * 0x100 + a);
    lemma_fundamental_div_mod_converse(v, 0x1_0000, r * 0x100 + g, b * 0x100 + a);
    lemma_fundamental_div_mod_converse(r * 0x100 + g, 0x100, r as int, g as int);
    lemma_fundamental_div_mod_converse(v, 0x100, r * 0x1_0000 + g * 0x100 + b, a as int);
    lemma_fundamental_div_mod_converse(r * 0x1_0000 + g * 0x100 + b, 0x100, r * 0x100 + g, b as int);
}

/// Taking a packed value apart and packing its channels again gives the
/// packed value back.
pub proof fn lemma_encode_decode(hex: u32)
    ensures
        packed(channels(hex).0, channels(hex).1, channels(hex).2, channels(hex).3) == hex,
{
    assert(hex / 0x100_0000 < 0x100 && (hex / 0x100_0000) * 0x100_0000 + (hex / 0x1_0000 % 0x100)
        * 0x1_0000 + (hex / 0x100 % 0x100) * 0x100 + hex % 0x100 == hex) by (bit_vector);
}

} // verus!
