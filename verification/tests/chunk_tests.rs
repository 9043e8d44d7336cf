use blockmap::chunk::{chunk_grid, encode_chunk, encode_region, material_name};
use blockmap::quantize::Pixel;

fn uniform_indices(v: u8) -> Vec<u8> {
    vec![v; 262144]
}

#[test]
fn material_names_cycle() {
    assert_eq!(material_name(0), "minecraft:coal_block");
    assert_eq!(material_name(1), "minecraft:oak_planks");
    assert_eq!(material_name(2), "minecraft:cobblestone");
    assert_eq!(material_name(3), "minecraft:grass_block");
    assert_eq!(material_name(4), "minecraft:coal_block");
    assert_eq!(material_name(15), "minecraft:grass_block");
}

#[test]
fn chunk_grid_extrudes_identical_layers() {
    let mut indices = uniform_indices(0);
    // Paint the pixel at (x=16, y=32): chunk (1, 2), cell (0, 0).
    indices[32 * 512 + 16] = 3;
    let g = chunk_grid(&indices, 1, 2);
    assert_eq!(g.len(), 4096);
    for layer in 0..16 {
        assert_eq!(g[layer * 256], 3, "layer {}", layer);
        assert_eq!(g[layer * 256 + 1], 0);
    }
    for layer in 1..16 {
        assert_eq!(&g[layer * 256..(layer + 1) * 256], &g[0..256]);
    }
}

#[test]
fn encode_chunk_fields() {
    let indices = uniform_indices(1);
    let c = encode_chunk(3, -2, &indices, 5, 7);
    assert_eq!(c.x_pos, 3 * 32 + 5);
    assert_eq!(c.z_pos, -2 * 32 + 7);
    assert_eq!(c.data_version, 16);
    assert_eq!(c.last_update, 0);
    assert_eq!(c.status, "full");
    assert_eq!(c.sections.len(), 1);
    let s = &c.sections[0];
    assert_eq!(s.y_index, 0);
    assert_eq!(s.block_light, vec![0i8; 2048]);
    assert_eq!(s.palette.len(), 16);
    assert_eq!(s.palette[0], "minecraft:coal_block");
    assert_eq!(s.palette[5], "minecraft:oak_planks");
    // A uniform grid of index 1 packs to nibbles of 1 in every word.
    assert_eq!(s.block_states.len(), 256);
    for w in &s.block_states {
        assert_eq!(*w as u64, 0x1111_1111_1111_1111);
    }
}

#[test]
fn encode_region_shape_and_positions() {
    let pixels = vec![Pixel(255, 255, 255); 262144];
    let r = encode_region(2, 1, &pixels);
    assert_eq!(r.region_x, 2);
    assert_eq!(r.region_y, 1);
    assert_eq!(r.chunks.len(), 1024);
    // Column-major: chunk k covers (col, row) = (k / 32, k % 32).
    assert_eq!(r.chunks[0].x_pos, 64);
    assert_eq!(r.chunks[0].z_pos, 32);
    assert_eq!(r.chunks[33].x_pos, 65);
    assert_eq!(r.chunks[33].z_pos, 33);
    assert_eq!(r.chunks[1023].x_pos, 95);
    assert_eq!(r.chunks[1023].z_pos, 63);
    // A white raster quantizes to index 0 everywhere: empty block states.
    for c in &r.chunks {
        for w in &c.sections[0].block_states {
            assert_eq!(*w, 0);
        }
    }
}

#[test]
fn encode_region_quantizes_its_raster() {
    // All red: area-fill material, index 1.
    let pixels = vec![Pixel(255, 0, 0); 262144];
    let r = encode_region(0, 0, &pixels);
    for c in &r.chunks {
        for w in &c.sections[0].block_states {
            assert_eq!(*w as u64, 0x1111_1111_1111_1111);
        }
    }
}

#[test]
fn encode_region_deterministic_across_calls_and_order() {
    let mut pixels = vec![Pixel(255, 255, 255); 262144];
    for i in 0..262144 {
        if i % 7 == 0 {
            pixels[i] = Pixel(255, 0, 0);
        } else if i % 11 == 0 {
            pixels[i] = Pixel(0, 255, 0);
        }
    }
    let other = vec![Pixel(0, 255, 0); 262144];
    // One run processes (0,0) then (1,0); the other the reverse order.
    let a1 = encode_region(0, 0, &pixels);
    let a2 = encode_region(1, 0, &other);
    let b2 = encode_region(1, 0, &other);
    let b1 = encode_region(0, 0, &pixels);
    for (x, y) in [(&a1, &b1), (&a2, &b2)] {
        assert_eq!(x.region_x, y.region_x);
        assert_eq!(x.region_y, y.region_y);
        assert_eq!(x.chunks.len(), y.chunks.len());
        for (cx, cy) in x.chunks.iter().zip(y.chunks.iter()) {
            assert_eq!(cx.x_pos, cy.x_pos);
            assert_eq!(cx.z_pos, cy.z_pos);
            assert_eq!(cx.sections[0].block_states, cy.sections[0].block_states);
            assert_eq!(cx.sections[0].palette, cy.sections[0].palette);
        }
    }
}
