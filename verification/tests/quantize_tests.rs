use blockmap::quantize::{block_index, material_color, quantize_buffer, Pixel};

#[test]
fn quantize_table_exact() {
    assert_eq!(block_index(Pixel(255, 255, 255)), 0);
    assert_eq!(block_index(Pixel(255, 0, 0)), 1);
    assert_eq!(block_index(Pixel(0, 255, 0)), 2);
    assert_eq!(block_index(Pixel(0, 0, 0)), 3);
}

#[test]
fn quantize_fallback_for_unknown_colors() {
    assert_eq!(block_index(Pixel(7, 7, 7)), 3);
    assert_eq!(block_index(Pixel(255, 255, 254)), 3);
    assert_eq!(block_index(Pixel(254, 0, 0)), 3);
    assert_eq!(block_index(Pixel(128, 200, 90)), 3);
}

#[test]
fn quantize_idempotent_on_palette_colors() {
    for i in 0..4u8 {
        assert_eq!(block_index(material_color(i)), i);
    }
}

#[test]
fn quantize_buffer_maps_each_pixel() {
    let pixels = vec![
        Pixel(255, 255, 255),
        Pixel(255, 0, 0),
        Pixel(0, 255, 0),
        Pixel(1, 2, 3),
        Pixel(255, 0, 0),
    ];
    let idx = quantize_buffer(&pixels);
    assert_eq!(idx, vec![0u8, 1, 2, 3, 1]);
}
