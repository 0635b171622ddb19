use vstd::prelude::*;

verus! {

pub const MAX_WIDTH: usize = 640;

pub const MAX_HEIGHT: usize = 360;

/// Packs an 8-bit RGB triple into one 0x00RRGGBB word, the layout the
/// display buffer expects: red in bits 16..24, green in 8..16, blue in 0..8.
pub fn from_u8_rgb(r: u8, g: u8, b: u8) -> (c: u32)
    ensures
        c == r as int * 0x10000 + g as int * 0x100 + b as int,
        c <= 0xFFFFFF,
{
    let (r, g, b) = (r as u32, g as u32, b as u32);
    let c = (r << 16) | (g << 8) | b;
    proof {
        assert(c == r * 0x10000 + g * 0x100 + b && c <= 0xFFFFFF) by (bit_vector)
            requires
                r < 256,
                g < 256,
                b < 256,
                c == (r << 16) | (g << 8) | b,
        ;
    }
    c
}

/// Packs an 8-bit RGB triple, given as one tuple, into a 0x00RRGGBB word.
pub fn from_u8_tuble_rgb(tuple: (u8, u8, u8)) -> (c: u32)
    ensures
        c == tuple.0 as int * 0x10000 + tuple.1 as int * 0x100 + tuple.2 as int,
        c <= 0xFFFFFF,
{
    let (r, g, b) = tuple;
    from_u8_rgb(r, g, b)
}

} // verus!
