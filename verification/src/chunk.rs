//! The voxel encoder: for each chunk of a region, extrudes the quantized
//! 16-by-16 grid into a flat slab of 16 identical layers, packs the palette
//! indices into the block-state words, and assembles the chunk's
//! compound-tag data — position, status, material palette, packed states
//! and a zero-filled light array — ready for the region-container writer.
use vstd::prelude::*;

use crate::blockstate::{lemma_packing_unique, pack_block_states, spec_packed_words};
use crate::quantize::{quantize_buffer, spec_block_index, Pixel, MATERIAL_COUNT};

verus! {

/// Blocks per chunk side, and vertical layers of the slab.
pub const CHUNK_SIZE: u64 = 16;

/// Chunks per region side.
pub const REGION_CHUNKS: u64 = 32;

/// Pixels of one region's raster (512 by 512).
pub const REGION_PIXELS: u64 = 262144;

/// Entries of the material palette of one section (only the first
/// `MATERIAL_COUNT` are distinct; the rest repeat them, reproducing the
/// fixed 16-entry palette the consuming engine expects).
pub const PALETTE_SIZE: u64 = 16;

/// Bits per entry of the packed block-state array: the minimum width able
/// to represent a 16-entry palette.
pub const BLOCK_STATE_BITS: u64 = 4;

/// One vertical section of a chunk: its height index, light array,
/// material palette and packed block states.
#[derive(Debug)]
pub struct ChunkSection {
    pub y_index: i8,
    pub block_light: Vec<i8>,
    pub palette: Vec<String>,
    pub block_states: Vec<i64>,
}

/// The compound-tag data of one chunk, as plain values: chunk position,
/// status marker, and its sections.
#[derive(Debug)]
pub struct ChunkData {
    pub x_pos: i32,
    pub z_pos: i32,
    pub data_version: i32,
    pub last_update: i64,
    pub status: String,
    pub sections: Vec<ChunkSection>,
}

/// The material name of palette entry `i`: the four quantizer materials,
/// repeated to fill the fixed 16-entry palette.
pub open spec fn spec_material_name(i: int) -> Seq<char> {
    if i % 4 == 0 {
        "minecraft:coal_block"@
    } else if i % 4 == 1 {
        "minecraft:oak_planks"@
    } else if i % 4 == 2 {
        "minecraft:cobblestone"@
    } else {
        "minecraft:grass_block"@
    }
}

/// The material name of palette entry `i`.
pub fn material_name(i: u8) -> (r: String)
    ensures
        r@ == spec_material_name(i as int),
{
    let m = i % 4;
    if m == 0 {
        "minecraft:coal_block".to_owned()
    } else if m == 1 {
        "minecraft:oak_planks".to_owned()
    } else if m == 2 {
        "minecraft:cobblestone".to_owned()
    } else {
        "minecraft:grass_block".to_owned()
    }
}

/// The raster index read for cell `i` of the chunk at `(col, row)` of its
/// region: cell `i` covers layer `i / 256`, grid row `(i / 16) % 16` and
/// grid column `i % 16`, and every layer reads the same pixel.
pub open spec fn img_index(col: int, row: int, i: int) -> int {
    (row * 16 + ((i / 16) % 16)) * 512 + col * 16 + (i % 16)
}

/// The extruded palette-index grid of the chunk at `(col, row)`: 4096
/// cells, 16 identical layers of the chunk's 16-by-16 quantized pixels.
pub open spec fn spec_chunk_grid(indices: Seq<u8>, col: int, row: int) -> Seq<u8> {
    Seq::new(4096, |i: int| indices[img_index(col, row, i)])
}

/// The quantized form of a pixel buffer.
pub open spec fn spec_quantized(pixels: Seq<Pixel>) -> Seq<u8> {
    Seq::new(pixels.len(), |i: int| spec_block_index(pixels[i]))
}

/// Builds the extruded palette-index grid of the chunk at `(col, row)`
/// from the region's quantized raster.
pub fn chunk_grid(indices: &Vec<u8>, col: usize, row: usize) -> (g: Vec<u8>)
    requires
        indices@.len() == REGION_PIXELS,
        col < REGION_CHUNKS,
        row < REGION_CHUNKS,
    ensures
        g@ == spec_chunk_grid(indices@, col as int, row as int),
{
    let mut g: Vec<u8> = Vec::new();
    let mut i: usize = 0;
    while i < 4096
        invariant
            indices@.len() == REGION_PIXELS,
            col < REGION_CHUNKS,
            row < REGION_CHUNKS,
            0 <= i <= 4096,
            g@.len() == i,
            forall|n: int|
                0 <= n < i ==> (#[trigger] g@[n]) == indices@[img_index(
                    col as int,
                    row as int,
                    n,
                )],
        decreases 4096 - i,
    {
        let y: usize = (i / 16) % 16;
        let x: usize = i % 16;
        g.push(indices[(row * 16 + y) * 512 + col * 16 + x]);
        i = i + 1;
    }
    proof {
        assert(g@ =~= spec_chunk_grid(indices@, col as int, row as int));
    }
    g
}

/// What the encoder promises of one encoded chunk: position derived from
/// its region and chunk coordinates, a full status, one section carrying
/// the fixed palette, a zero-filled light array, and block states that are
/// exactly the packing of the chunk's extruded quantized grid.
pub open spec fn chunk_matches(
    c: ChunkData,
    rx: int,
    ry: int,
    k: int,
    indices: Seq<u8>,
) -> bool {
    &&& c.x_pos == rx * 32 + k / 32
    &&& c.z_pos == ry * 32 + k % 32
    &&& c.data_version == 16
    &&& c.last_update == 0
    &&& c.status@ == "full"@
    &&& c.sections@.len() == 1
    &&& c.sections@[0].y_index == 0
    &&& c.sections@[0].block_light@ == Seq::new(2048nat, |i: int| 0i8)
    &&& c.sections@[0].palette@.len() == PALETTE_SIZE
    &&& forall|i: int|
        0 <= i < PALETTE_SIZE ==> (#[trigger] c.sections@[0].palette@[i])@
            == spec_material_name(i)
    &&& c.sections@[0].block_states@.map_values(|v: i64| v as u64) == spec_packed_words(
        spec_chunk_grid(indices, k / 32, k % 32),
        BLOCK_STATE_BITS,
    )
}

/// Builds the fixed 16-entry material palette.
fn build_palette() -> (p: Vec<String>)
    ensures
        p@.len() == PALETTE_SIZE,
        forall|i: int|
            0 <= i < PALETTE_SIZE ==> (#[trigger] p@[i])@ == spec_material_name(i),
{
    let mut p: Vec<String> = Vec::new();
    let mut i: u8 = 0;
    while i < 16
        invariant
            0 <= i <= 16,
            p@.len() == i,
            forall|n: int| 0 <= n < i ==> (#[trigger] p@[n])@ == spec_material_name(n),
        decreases 16 - i,
    {
        p.push(material_name(i));
        i = i + 1;
    }
    p
}

/// Encodes the chunk at `(col, row)` of region `(rx, ry)` from the
/// region's quantized raster.
pub fn encode_chunk(rx: i32, ry: i32, indices: &Vec<u8>, col: usize, row: usize) -> (c:
    ChunkData)
    requires
        indices@.len() == REGION_PIXELS,
        forall|i: int| 0 <= i < indices@.len() ==> (#[trigger] indices@[i]) < MATERIAL_COUNT,
        col < REGION_CHUNKS,
        row < REGION_CHUNKS,
        -0x0200_0000 <= rx <= 0x0200_0000,
        -0x0200_0000 <= ry <= 0x0200_0000,
    ensures
        chunk_matches(c, rx as int, ry as int, col as int * 32 + row as int, indices@),
{
    let grid = chunk_grid(indices, col, row);
    proof {
        vstd::arithmetic::power2::lemma2_to64();
        assert(vstd::arithmetic::power2::pow2(4) == 16);
        assert forall|i: int| 0 <= i < grid@.len() implies (#[trigger] grid@[i]) < 16 by {
            assert(grid@[i] == indices@[img_index(col as int, row as int, i)]);
        }
    }
    let words = pack_block_states(&grid, 4);
    let mut states: Vec<i64> = Vec::new();
    let mut i: usize = 0;
    while i < words.len()
        invariant
            0 <= i <= words@.len(),
            states@.len() == i,
            forall|n: int| 0 <= n < i ==> (#[trigger] states@[n]) == words@[n] as i64,
        decreases words@.len() - i,
    {
        states.push(words[i] as i64);
        i = i + 1;
    }
    let section = ChunkSection {
        y_index: 0,
        block_light: vec![0i8; 2048],
        palette: build_palette(),
        block_states: states,
    };
    let mut sections: Vec<ChunkSection> = Vec::new();
    sections.push(section);
    let c = ChunkData {
        x_pos: rx * 32 + (col as i32),
        z_pos: ry * 32 + (row as i32),
        data_version: 16,
        last_update: 0,
        status: "full".to_owned(),
        sections,
    };
    proof {
        let k = col as int * 32 + row as int;
        assert(k / 32 == col as int && k % 32 == row as int) by (nonlinear_arith)
            requires
                0 <= col < 32,
                0 <= row < 32,
                k == col as int * 32 + row as int,
        ;
        lemma_packing_unique(
            spec_chunk_grid(indices@, col as int, row as int),
            BLOCK_STATE_BITS,
            words@,
        );
        assert forall|n: int| 0 <= n < states@.len() implies (#[trigger] states@[n]) as u64
            == words@[n] by {
            let w = words@[n];
            assert(w as i64 as u64 == w) by (bit_vector);
        }
        assert(c.sections@[0].block_states@.map_values(|v: i64| v as u64) =~= words@);
        assert(c.sections@[0].block_light@ =~= Seq::new(2048nat, |n: int| 0i8));
    }
    c
}

/// One region's encoded output: its region coordinates and its 1024
/// chunks, in column-major chunk order.
#[derive(Debug)]
pub struct RegionData {
    pub region_x: i32,
    pub region_y: i32,
    pub chunks: Vec<ChunkData>,
}

/// The functional model of an encoded chunk: its position and packed
/// words. Together with `chunk_matches`' fixed fields this pins the whole
/// chunk, so any two encodings of the same inputs agree.
pub open spec fn chunk_model(c: ChunkData) -> (int, int, Seq<u64>) {
    (
        c.x_pos as int,
        c.z_pos as int,
        c.sections@[0].block_states@.map_values(|v: i64| v as u64),
    )
}

/// The functional model of a whole region's chunks, as a function of the
/// region coordinates and its raster alone.
pub open spec fn spec_region_model(rx: int, ry: int, pixels: Seq<Pixel>) -> Seq<
    (int, int, Seq<u64>),
> {
    Seq::new(
        1024nat,
        |k: int|
            (
                rx * 32 + k / 32,
                ry * 32 + k % 32,
                spec_packed_words(
                    spec_chunk_grid(spec_quantized(pixels), k / 32, k % 32),
                    BLOCK_STATE_BITS,
                ),
            ),
    )
}

/// Encodes a whole region: quantizes its raster, then encodes its 1024
/// chunks in column-major order. The result is a function of the region
/// coordinates and the raster alone — the basis of the orchestrator's
/// determinism guarantee.
pub fn encode_region(rx: i32, ry: i32, pixels: &Vec<Pixel>) -> (r: RegionData)
    requires
        pixels@.len() == REGION_PIXELS,
        -0x0200_0000 <= rx <= 0x0200_0000,
        -0x0200_0000 <= ry <= 0x0200_0000,
    ensures
        r.region_x == rx,
        r.region_y == ry,
        r.chunks@.len() == 1024,
        forall|k: int|
            0 <= k < 1024 ==> chunk_matches(
                #[trigger] r.chunks@[k],
                rx as int,
                ry as int,
                k,
                spec_quantized(pixels@),
            ),
        r.chunks@.map_values(|c: ChunkData| chunk_model(c)) == spec_region_model(
            rx as int,
            ry as int,
            pixels@,
        ),
{
    let indices = quantize_buffer(pixels);
    proof {
        assert(indices@ =~= spec_quantized(pixels@));
    }
    let mut chunks: Vec<ChunkData> = Vec::new();
    let mut col: usize = 0;
    while col < 32
        invariant
            pixels@.len() == REGION_PIXELS,
            indices@ == spec_quantized(pixels@),
            indices@.len() == REGION_PIXELS,
            forall|i: int|
                0 <= i < indices@.len() ==> (#[trigger] indices@[i]) < MATERIAL_COUNT,
            -0x0200_0000 <= rx <= 0x0200_0000,
            -0x0200_0000 <= ry <= 0x0200_0000,
            0 <= col <= 32,
            chunks@.len() == col * 32,
            forall|k: int|
                0 <= k < col * 32 ==> chunk_matches(
                    #[trigger] chunks@[k],
                    rx as int,
                    ry as int,
                    k,
                    indices@,
                ),
        decreases 32 - col,
    {
        let mut row: usize = 0;
        while row < 32
            invariant
                pixels@.len() == REGION_PIXELS,
                indices@ == spec_quantized(pixels@),
                indices@.len() == REGION_PIXELS,
                forall|i: int|
                    0 <= i < indices@.len() ==> (#[trigger] indices@[i]) < MATERIAL_COUNT,
                -0x0200_0000 <= rx <= 0x0200_0000,
                -0x0200_0000 <= ry <= 0x0200_0000,
                0 <= col < 32,
                0 <= row <= 32,
                chunks@.len() == col * 32 + row,
                forall|k: int|
                    0 <= k < col * 32 + row ==> chunk_matches(
                        #[trigger] chunks@[k],
                        rx as int,
                        ry as int,
                        k,
                        indices@,
                    ),
            decreases 32 - row,
        {
            let c = encode_chunk(rx, ry, &indices, col, row);
            chunks.push(c);
            row = row + 1;
        }
        col = col + 1;
    }
    let r = RegionData { region_x: rx, region_y: ry, chunks };
    proof {
        assert forall|k: int|
            0 <= k < 1024 implies chunk_matches(
            #[trigger] r.chunks@[k],
            rx as int,
            ry as int,
            k,
            spec_quantized(pixels@),
        ) by {}
        assert(r.chunks@.map_values(|c: ChunkData| chunk_model(c)) =~= spec_region_model(
            rx as int,
            ry as int,
            pixels@,
        ));
    }
    r
}

} // verus!
