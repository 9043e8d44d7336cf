use blockmap::blockstate::{pack_block_states, unpack_block_states};

#[test]
fn pack_four_bits_low_first() {
    let indices: Vec<u8> = (0..16).collect();
    let words = pack_block_states(&indices, 4);
    assert_eq!(words, vec![0xFEDC_BA98_7654_3210u64]);
}

#[test]
fn pack_one_bit_exact() {
    let mut indices = vec![0u8; 64];
    indices[0] = 1;
    indices[63] = 1;
    let words = pack_block_states(&indices, 1);
    assert_eq!(words, vec![0x8000_0000_0000_0001u64]);
}

#[test]
fn pack_eight_bits_exact() {
    let indices = vec![0x11u8, 0x22, 0x33, 0x44, 0x55, 0x66, 0x77, 0x88];
    let words = pack_block_states(&indices, 8);
    assert_eq!(words, vec![0x8877_6655_4433_2211u64]);
}

#[test]
fn pack_partial_last_word() {
    let indices = vec![1u8, 2, 3, 4, 5];
    let words = pack_block_states(&indices, 8);
    assert_eq!(words, vec![0x0000_0005_0403_0201u64]);
}

#[test]
fn round_trip_all_supported_widths() {
    for &bits in &[1u64, 2, 4, 8] {
        let limit = 1u16 << bits;
        let indices: Vec<u8> = (0..257u16).map(|i| (i * 7 % limit) as u8).collect();
        let words = pack_block_states(&indices, bits);
        let back = unpack_block_states(&words, bits, indices.len());
        assert_eq!(back, indices, "round trip failed at {} bits", bits);
    }
}

#[test]
fn round_trip_full_chunk_grid() {
    let indices: Vec<u8> = (0..4096u32).map(|i| (i % 4) as u8).collect();
    let words = pack_block_states(&indices, 4);
    assert_eq!(words.len(), 256);
    let back = unpack_block_states(&words, 4, 4096);
    assert_eq!(back, indices);
}
