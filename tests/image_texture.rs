use rtweekend::image::ImageTexture;

fn raster_2x2() -> ImageTexture {
    // Two pixels per row, three bytes per pixel, one padding byte per row.
    let data = vec![
        1, 2, 3, 4, 5, 6, 0, //
        7, 8, 9, 10, 11, 12, 0,
    ];
    ImageTexture::new(data, 2, 2, 3, 7).unwrap()
}

#[test]
fn texel_reads_three_bytes() {
    let t = raster_2x2();
    assert_eq!(t.texel(0, 0), (1, 2, 3));
    assert_eq!(t.texel(1, 0), (4, 5, 6));
    assert_eq!(t.texel(0, 1), (7, 8, 9));
    assert_eq!(t.texel(1, 1), (10, 11, 12));
}

#[test]
fn texel_clamps_to_last_pixel() {
    let t = raster_2x2();
    assert_eq!(t.texel(2, 0), (4, 5, 6));
    assert_eq!(t.texel(0, 9), (7, 8, 9));
    assert_eq!(t.texel(usize::MAX, usize::MAX), (10, 11, 12));
}

#[test]
fn dimensions_are_kept() {
    let t = raster_2x2();
    assert_eq!(t.width(), 2);
    assert_eq!(t.height(), 2);
}

#[test]
fn empty_raster_is_refused() {
    assert!(ImageTexture::new(vec![1, 2, 3], 0, 1, 3, 0).is_none());
    assert!(ImageTexture::new(vec![1, 2, 3], 1, 0, 3, 3).is_none());
}

#[test]
fn short_buffer_is_refused() {
    assert!(ImageTexture::new(vec![0; 11], 2, 2, 3, 6).is_none());
    assert!(ImageTexture::new(vec![0; 12], 2, 2, 3, 6).is_some());
    assert!(ImageTexture::new(vec![0; 12], 2, 2, usize::MAX, 6).is_none());
}

#[test]
fn single_byte_pixels_read_neighbours() {
    // A grey raster still yields three bytes per sample.
    let t = ImageTexture::new(vec![10, 20, 30, 40], 2, 1, 1, 2).unwrap();
    assert_eq!(t.texel(0, 0), (10, 20, 30));
    assert_eq!(t.texel(1, 0), (20, 30, 40));
}

/// A baseline JPEG of 8 x 8 pixels whose every block holds only a zero DC
/// coefficient, so each sample decodes to mid grey (128).
fn flat_jpeg(components: u8) -> Vec<u8> {
    let mut b = vec![0xFF, 0xD8];
    // One quantisation table of ones.
    b.extend_from_slice(&[0xFF, 0xDB, 0x00, 0x43, 0x00]);
    b.extend(std::iter::repeat(1u8).take(64));
    // Frame header: 8-bit samples, 8 x 8, no subsampling.
    let len = 8 + 3 * components as u16;
    b.extend_from_slice(&[0xFF, 0xC0, (len >> 8) as u8, len as u8, 0x08, 0x00, 0x08, 0x00, 0x08, components]);
    for c in 0..components {
        b.extend_from_slice(&[c + 1, 0x11, 0x00]);
    }
    // DC and AC Huffman tables holding a single one-bit code for symbol 0.
    for class in [0x00u8, 0x10] {
        b.extend_from_slice(&[0xFF, 0xC4, 0x00, 0x14, class, 1]);
        b.extend(std::iter::repeat(0u8).take(15));
        b.push(0x00);
    }
    // Scan header over all components.
    let len = 6 + 2 * components as u16;
    b.extend_from_slice(&[0xFF, 0xDA, (len >> 8) as u8, len as u8, components]);
    for c in 0..components {
        b.extend_from_slice(&[c + 1, 0x00]);
    }
    b.extend_from_slice(&[0x00, 0x3F, 0x00]);
    // Each block: DC category 0 then end of block, two zero bits; pad with ones.
    let bits = 2 * components as u32;
    b.push(0xFFu8 >> bits);
    b.extend_from_slice(&[0xFF, 0xD9]);
    b
}

#[test]
fn decode_colour_jpeg() {
    let t = ImageTexture::decode(&flat_jpeg(3)).unwrap();
    assert_eq!(t.width(), 8);
    assert_eq!(t.height(), 8);
    assert_eq!(t.texel(0, 0), (128, 128, 128));
    assert_eq!(t.texel(7, 7), (128, 128, 128));
}

#[test]
fn decode_grey_jpeg_cannot_be_sampled() {
    // One byte per pixel leaves too few bytes to read three at the last pixel.
    assert!(ImageTexture::decode(&flat_jpeg(1)).is_none());
}

#[test]
fn decode_garbage_is_refused() {
    assert!(ImageTexture::decode(&vec![1, 2, 3, 4]).is_none());
    assert!(ImageTexture::decode(&Vec::new()).is_none());
}
