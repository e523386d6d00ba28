use sense_hat::matrix::{gradient_color, offset, pixel_bytes, rgb565, DeviceImage};

#[test]
fn rgb565_encodes_example() {
    // (255, 127, 0): red keeps its top 5 bits (31), green its top 6 (31),
    // blue is 0, packed as 0b11111_011111_00000.
    assert_eq!(rgb565([255, 127, 0]), 0b11111_011111_00000);
    assert_eq!(rgb565([255, 127, 0]), 0xfbe0);
}

#[test]
fn rgb565_black_is_zero() {
    assert_eq!(rgb565([0, 0, 0]), 0x0000);
}

#[test]
fn rgb565_white_is_all_ones() {
    assert_eq!(rgb565([255, 255, 255]), 0xffff);
}

#[test]
fn rgb565_fields_recover_top_bits() {
    let p = rgb565([255, 127, 0]);
    assert_eq!(p >> 11, (255u16) >> 3);
    assert_eq!((p >> 5) & 0x3f, (127u16) >> 2);
    assert_eq!(p & 0x1f, 0);
    // Re-expanding each field lands within one quantization step.
    let p = rgb565([200, 100, 50]);
    let r_back = (p >> 11) << 3;
    let g_back = ((p >> 5) & 0x3f) << 2;
    let b_back = (p & 0x1f) << 3;
    assert!(r_back <= 200 && 200 - r_back < 8);
    assert!(g_back <= 100 && 100 - g_back < 4);
    assert!(b_back <= 50 && 50 - b_back < 8);
}

#[test]
fn pixel_bytes_low_byte_first() {
    assert_eq!(pixel_bytes(0xfbe0), [0xe0, 0xfb]);
    assert_eq!(pixel_bytes(0x0000), [0x00, 0x00]);
}

#[test]
fn offset_is_row_major_two_bytes_per_cell() {
    assert_eq!(offset(0, 0), 0);
    assert_eq!(offset(0, 1), 2);
    assert_eq!(offset(1, 2), 20);
    assert_eq!(offset(7, 7), 126);
}

#[test]
fn offsets_cover_range_without_gaps_or_overlaps() {
    let mut seen = vec![false; 128];
    for row in 0..8 {
        for col in 0..8 {
            let o = offset(row, col);
            assert_eq!(o % 2, 0);
            assert!(o + 2 <= 128);
            assert!(!seen[o], "offset {} hit twice", o);
            seen[o] = true;
        }
    }
    for k in 0..128 {
        assert_eq!(seen[k], k % 2 == 0);
    }
}

#[test]
fn set_pixel_writes_two_bytes_at_offset_zero() {
    let mut img = DeviceImage::new();
    img.set_pixel([255, 127, 0], 0, 0);
    let bytes = img.contents();
    assert_eq!(bytes[0], 0xe0);
    assert_eq!(bytes[1], 0xfb);
    assert_eq!(img.read_pixel(0, 0), 0b11111_011111_00000);
    for k in 2..128 {
        assert_eq!(bytes[k], 0);
    }
}

#[test]
fn set_pixel_leaves_other_cells_untouched() {
    let mut img = DeviceImage::new();
    img.set_pixel([1, 2, 3], 3, 4);
    img.set_pixel([255, 255, 255], 5, 6);
    assert_eq!(img.read_pixel(3, 4), rgb565([1, 2, 3]));
    assert_eq!(img.read_pixel(5, 6), 0xffff);
    assert_eq!(img.read_pixel(0, 0), 0);
}

fn junk_image() -> DeviceImage {
    let bytes: Vec<u8> = (0..128).map(|i| (i * 37 + 11) as u8).collect();
    DeviceImage::from_bytes(bytes)
}

#[test]
fn clear_reads_back_sixty_four_zero_cells() {
    let mut img = junk_image();
    img.clear();
    for row in 0..8 {
        for col in 0..8 {
            assert_eq!(img.read_pixel(row, col), 0x0000);
        }
    }
    assert_eq!(img.contents(), vec![0u8; 128]);
}

#[test]
fn clear_twice_matches_clear_once() {
    let mut once = junk_image();
    once.clear();
    let after_once = once.contents();

    let mut twice = junk_image();
    twice.clear();
    twice.clear();
    let after_twice = twice.contents();

    assert_eq!(after_once, after_twice);
    assert_eq!(after_once.len(), 128);
}

#[test]
fn try_set_pixel_rejects_out_of_range_coordinates() {
    let mut img = junk_image();
    let before = img.contents();
    let r = img.try_set_pixel([255, 255, 255], 8, 0);
    match r {
        Err(e) => assert_eq!(e.message, "pixel coordinate out of range"),
        Ok(()) => panic!("row 8 must be rejected"),
    }
    let r = img.try_set_pixel([255, 255, 255], 0, 8);
    assert!(r.is_err());
    let r = img.try_set_pixel([255, 255, 255], 200, 200);
    assert!(r.is_err());
    assert_eq!(img.contents(), before);
    assert!(img.try_set_pixel([255, 255, 255], 7, 7).is_ok());
    assert_eq!(img.read_pixel(7, 7), 0xffff);
}

#[test]
fn gradient_color_values() {
    assert_eq!(gradient_color(0, 0), [255, 127, 0]);
    assert_eq!(gradient_color(7, 0), [255 - 31 * 7, 127, 0]);
    assert_eq!(gradient_color(0, 7), [255, 127, 31 * 7]);
}

#[test]
fn render_gradient_fills_every_cell() {
    let mut img = DeviceImage::new();
    img.render_gradient();
    for row in 0..8 {
        for col in 0..8 {
            assert_eq!(img.read_pixel(row, col), rgb565(gradient_color(row, col)));
        }
    }
    assert_eq!(img.read_pixel(0, 0), rgb565([255, 127, 0]));
}
