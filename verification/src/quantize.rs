//! The color quantizer: maps each raster pixel's RGB triple to one of four
//! material palette indices by exact equality against a fixed lookup table.
//! Total: any color outside the table (an anti-aliased blend, for instance)
//! resolves to the fallback index rather than failing; the renderer is
//! expected to draw with anti-aliasing disabled so only table colors appear.
use vstd::prelude::*;

verus! {

/// RGB triple of one raster pixel.
#[derive(Clone, Copy, Debug, PartialEq, Eq, Structural)]
pub struct Pixel(pub u8, pub u8, pub u8);

/// Number of palette indices the quantizer can produce.
pub const MATERIAL_COUNT: u8 = 4;

/// The quantizer's lookup table: background white to index 0, area fill
/// red to index 1, stroke green to index 2, any other color to the
/// fallback index 3.
pub open spec fn spec_block_index(p: Pixel) -> u8 {
    if p == (Pixel(255, 255, 255)) {
        0
    } else if p == (Pixel(255, 0, 0)) {
        1
    } else if p == (Pixel(0, 255, 0)) {
        2
    } else {
        3
    }
}

/// The representative color of each palette index (the fallback's
/// representative is black, which no table entry claims).
pub open spec fn spec_material_color(i: u8) -> Pixel {
    if i == 0 {
        Pixel(255, 255, 255)
    } else if i == 1 {
        Pixel(255, 0, 0)
    } else if i == 2 {
        Pixel(0, 255, 0)
    } else {
        Pixel(0, 0, 0)
    }
}

/// Maps one pixel to its material palette index. Total: never fails, and
/// the result is always within the four-entry material table.
pub fn block_index(p: Pixel) -> (r: u8)
    ensures
        r == spec_block_index(p),
        r < MATERIAL_COUNT,
{
    if p.0 == 255 && p.1 == 255 && p.2 == 255 {
        0
    } else if p.0 == 255 && p.1 == 0 && p.2 == 0 {
        1
    } else if p.0 == 0 && p.1 == 255 && p.2 == 0 {
        2
    } else {
        3
    }
}

/// The representative color of palette index `i`.
pub fn material_color(i: u8) -> (r: Pixel)
    ensures
        r == spec_material_color(i),
{
    if i == 0 {
        Pixel(255, 255, 255)
    } else if i == 1 {
        Pixel(255, 0, 0)
    } else if i == 2 {
        Pixel(0, 255, 0)
    } else {
        Pixel(0, 0, 0)
    }
}

/// Quantization is total and idempotent: quantizing the representative
/// color of an already-quantized index returns that same index.
pub proof fn lemma_quantize_idempotent(i: u8)
    requires
        i < MATERIAL_COUNT,
    ensures
        spec_block_index(spec_material_color(i)) == i,
{
}

/// Quantizes a whole pixel buffer, pixel by pixel, in order.
pub fn quantize_buffer(pixels: &Vec<Pixel>) -> (idx: Vec<u8>)
    ensures
        idx@.len() == pixels@.len(),
        forall|i: int|
            0 <= i < pixels@.len() ==> (#[trigger] idx@[i]) == spec_block_index(pixels@[i]),
{
    let mut idx: Vec<u8> = Vec::new();
    let mut i: usize = 0;
    while i < pixels.len()
        invariant
            0 <= i <= pixels@.len(),
            idx@.len() == i,
            forall|n: int|
                0 <= n < i ==> (#[trigger] idx@[n]) == spec_block_index(pixels@[n]),
        decreases pixels@.len() - i,
    {
        idx.push(block_index(pixels[i]));
        i = i + 1;
    }
    idx
}

} // verus!
