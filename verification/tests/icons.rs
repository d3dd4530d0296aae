use smbn::icons::{
    active_colors, build_dib, build_ico, icon_pixel, push_i32, push_u16, push_u32, stopped_colors, Rgba,
};

fn le32(bytes: &[u8], at: usize) -> u32 {
    u32::from_le_bytes([bytes[at], bytes[at + 1], bytes[at + 2], bytes[at + 3]])
}

#[test]
fn little_endian_pushes() {
    let mut out = Vec::new();
    push_u16(&mut out, 0x1234);
    push_u32(&mut out, 0xA1B2C3D4);
    push_i32(&mut out, -2);
    assert_eq!(out, vec![0x34, 0x12, 0xD4, 0xC3, 0xB2, 0xA1, 0xFE, 0xFF, 0xFF, 0xFF]);
}

#[test]
fn pixels_of_the_badge() {
    let (fill, glyph) = active_colors();
    assert_eq!(icon_pixel(32, 0, 0, fill, glyph), Rgba(0, 0, 0, 0));
    assert_eq!(icon_pixel(32, 15, 16, fill, glyph), glyph);
    assert_eq!(icon_pixel(32, 15, 12, fill, glyph), fill);
    assert_eq!(icon_pixel(32, 10, 9, fill, glyph), glyph);
}

#[test]
fn image_layout() {
    let (fill, glyph) = stopped_colors();
    let dib = build_dib(16, fill, glyph);
    assert_eq!(dib.len(), 40 + 16 * 16 * 4 + 64);
    assert_eq!(le32(&dib, 0), 40);
    assert_eq!(le32(&dib, 4), 16);
    assert_eq!(le32(&dib, 8), 32);
    assert_eq!(le32(&dib, 20), 1024);
    assert!(dib[40 + 1024..].iter().all(|&b| b == 0));
    let top_left = icon_pixel(16, 0, 15, fill, glyph);
    assert_eq!(&dib[40..44], &[top_left.2, top_left.1, top_left.0, top_left.3]);
    let centre = icon_pixel(16, 7, 7, fill, glyph);
    let row_from_bottom = 16 - 1 - 7;
    let at = 40 + (row_from_bottom * 16 + 7) * 4;
    assert_eq!(&dib[at..at + 4], &[centre.2, centre.1, centre.0, centre.3]);
}

#[test]
fn icon_directory_points_at_each_image() {
    let (fill, glyph) = active_colors();
    let ico = build_ico(fill, glyph);
    assert_eq!(&ico[..6], &[0, 0, 1, 0, 3, 0]);
    let sizes = [16u32, 32, 48];
    for (k, size) in sizes.iter().enumerate() {
        let entry = &ico[6 + 16 * k..22 + 16 * k];
        assert_eq!(entry[0] as u32, *size);
        assert_eq!(entry[1] as u32, *size);
        let len = le32(entry, 8) as usize;
        let offset = le32(entry, 12) as usize;
        assert_eq!(&ico[offset..offset + len], build_dib(*size, fill, glyph).as_slice());
    }
    assert_eq!(ico.len(), 54 + 1128 + 4264 + 9640);
}

#[test]
fn images_of_other_sides() {
    let (fill, glyph) = active_colors();
    let empty = build_dib(0, fill, glyph);
    assert_eq!(empty.len(), 40);
    assert_eq!(le32(&empty, 20), 0);
    let big = build_dib(300, fill, glyph);
    let mask = ((300 + 31) / 32) * 4 * 300;
    assert_eq!(big.len(), 40 + 300 * 300 * 4 + mask);
    assert_eq!(le32(&big, 4), 300);
    assert_eq!(le32(&big, 8), 600);
    assert_eq!(le32(&big, 20), 360_000);
    let p = icon_pixel(300, 150, 299 - 10, fill, glyph);
    let at = 40 + (10 * 300 + 150) * 4;
    assert_eq!(&big[at..at + 4], &[p.2, p.1, p.0, p.3]);
    assert!(big[40 + 360_000..].iter().all(|&b| b == 0));
}

#[test]
fn pixels_of_large_badges() {
    let (fill, glyph) = stopped_colors();
    assert_eq!(icon_pixel(65535, 0, 0, fill, glyph), Rgba(0, 0, 0, 0));
    assert_eq!(icon_pixel(65535, 65534, 65534, fill, glyph), Rgba(0, 0, 0, 0));
    let centre = icon_pixel(65535, 32767, 32767, fill, glyph);
    assert!(centre == fill || centre == glyph);
    assert_eq!(icon_pixel(1, 0, 0, fill, glyph), glyph);
}

#[test]
fn every_pixel_sits_at_its_row_from_the_bottom() {
    let (fill, glyph) = active_colors();
    let size: u32 = 32;
    let dib = build_dib(size, fill, glyph);
    for row in 0..size {
        for x in 0..size {
            let p = icon_pixel(size, x, size - 1 - row, fill, glyph);
            let at = 40 + 4 * (row * size + x) as usize;
            assert_eq!(&dib[at..at + 4], &[p.2, p.1, p.0, p.3]);
        }
    }
}
