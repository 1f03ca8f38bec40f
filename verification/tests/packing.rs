use labelprint::canvas::Canvas;
use labelprint::packing::{pack_bitmap, unpack_bitmap};

fn white_canvas(width: u32, height: u32) -> Canvas {
    Canvas { width, height, data: vec![255u8; (width as usize) * (height as usize)] }
}

#[test]
fn pack_length_is_ceil_of_bits() {
    let c = white_canvas(2000, 96);
    let packed = pack_bitmap(&c);
    assert_eq!(packed.len(), 2000 * 96 / 8);

    let c = white_canvas(2, 3);
    let packed = pack_bitmap(&c);
    assert_eq!(packed.len(), 1);
}

#[test]
fn pack_all_black_small_canvas_with_padding() {
    // 2x3 canvas, all ink: six 1-bits MSB-first, two zero padding bits.
    let c = Canvas { width: 2, height: 3, data: vec![0u8; 6] };
    let packed = pack_bitmap(&c);
    assert_eq!(packed, vec![0b1111_1100u8]);
}

#[test]
fn pack_threshold_cutover_at_128() {
    // 8x1 canvas: stream bit k carries column k, the single row.
    // Intensity < 128 packs to 1; 128 and above pack to 0.
    let c = Canvas {
        width: 8,
        height: 1,
        data: vec![0, 127, 128, 255, 1, 200, 99, 128],
    };
    let packed = pack_bitmap(&c);
    assert_eq!(packed, vec![0b1100_1010u8]);
}

#[test]
fn pack_single_pixel_scenario() {
    // A 2000x96 white canvas with one black pixel at column 500, row 50:
    // exactly one bit set, in byte (500*96 + (96-1-50)) / 8.
    let width = 2000u32;
    let height = 96u32;
    let mut data = vec![255u8; 2000 * 96];
    data[50 * 2000 + 500] = 0;
    let c = Canvas { width, height, data };
    let packed = pack_bitmap(&c);
    assert_eq!(packed.len(), 24000);

    let k = 500 * 96 + (96 - 1 - 50);
    let byte_index = k / 8;
    assert_eq!(byte_index, 6005);
    let bit_in_byte = k % 8;
    let expected_byte = 1u8 << (7 - bit_in_byte);
    for (i, b) in packed.iter().enumerate() {
        if i == byte_index {
            assert_eq!(*b, expected_byte);
        } else {
            assert_eq!(*b, 0u8, "stray bit in byte {}", i);
        }
    }
}

#[test]
fn pack_unpack_round_trip() {
    // Packing then unpacking reproduces the binarized grid exactly.
    let width = 5u32;
    let height = 7u32;
    let mut data = Vec::new();
    for y in 0..height {
        for x in 0..width {
            data.push(((x * 31 + y * 17) % 256) as u8);
        }
    }
    let c = Canvas { width, height, data: data.clone() };
    let packed = pack_bitmap(&c);
    assert_eq!(packed.len(), (5 * 7 + 7) / 8);
    let grid = unpack_bitmap(&packed, width, height);
    assert_eq!(grid.len(), 35);
    for y in 0..7usize {
        for x in 0..5usize {
            let expected = if data[y * 5 + x] < 128 { 1u8 } else { 0u8 };
            assert_eq!(grid[y * 5 + x], expected, "mismatch at ({}, {})", x, y);
        }
    }
}

#[test]
fn unpack_reads_msb_first() {
    // One byte 0b10000000 for a 4x2 canvas (8 bits exactly): only stream
    // bit 0 is set, which is column 0, bottom row.
    let bytes = vec![0b1000_0000u8];
    let grid = unpack_bitmap(&bytes, 4, 2);
    assert_eq!(grid.len(), 8);
    for y in 0..2usize {
        for x in 0..4usize {
            let expected = if x == 0 && y == 1 { 1u8 } else { 0u8 };
            assert_eq!(grid[y * 4 + x], expected);
        }
    }
}
