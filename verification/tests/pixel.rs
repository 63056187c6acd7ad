use emvision::pixel::{PixelBuffer, Rgba};

fn rgba(red: u8, green: u8, blue: u8, alpha: u8) -> Rgba {
    Rgba { red, green, blue, alpha }
}

#[test]
fn packed_color_is_unpacked_from_the_top_byte() {
    assert_eq!(Rgba::from_packed(0xFF8040C0), rgba(255, 128, 64, 192));
    assert_eq!(Rgba::from_packed(0xFFFFFFFF), rgba(255, 255, 255, 255));
    assert_eq!(Rgba::from_packed(0), rgba(0, 0, 0, 0));
    assert_eq!(Rgba::from_packed(0x01020304), rgba(1, 2, 3, 4));
    assert_eq!(Rgba::from_packed(255), rgba(0, 0, 0, 255));
}

#[test]
fn from_raw_takes_exactly_four_bytes_per_pixel() {
    assert!(PixelBuffer::from_raw(2, 1, vec![0; 8]).is_some());
    assert!(PixelBuffer::from_raw(2, 1, vec![0; 7]).is_none());
    assert!(PixelBuffer::from_raw(2, 1, vec![0; 9]).is_none());
    assert!(PixelBuffer::from_raw(0, 7, Vec::new()).is_some());
    assert!(PixelBuffer::from_raw(u32::MAX, u32::MAX, vec![0; 4]).is_none());
    assert!(PixelBuffer::from_raw(65536, 65536, Vec::new()).is_none());
}

#[test]
fn pixels_are_read_row_by_row() {
    let bytes: Vec<u8> = (0..24).collect();
    let buffer = PixelBuffer::from_raw(3, 2, bytes.clone()).unwrap();
    assert_eq!(buffer.width(), 3);
    assert_eq!(buffer.height(), 2);
    assert_eq!(buffer.pixel_count(), 6);
    assert_eq!(buffer.get_pixel(0, 0), Some(rgba(0, 1, 2, 3)));
    assert_eq!(buffer.get_pixel(2, 0), Some(rgba(8, 9, 10, 11)));
    assert_eq!(buffer.get_pixel(0, 1), Some(rgba(12, 13, 14, 15)));
    assert_eq!(buffer.get_pixel(2, 1), Some(rgba(20, 21, 22, 23)));
    assert_eq!(buffer.nth_pixel(4), rgba(16, 17, 18, 19));
    assert_eq!(buffer.as_raw(), &bytes);
    assert_eq!(buffer.into_raw(), bytes);
}

#[test]
fn no_pixel_outside_the_image() {
    let buffer = PixelBuffer::from_raw(3, 2, vec![9; 24]).unwrap();
    assert_eq!(buffer.get_pixel(3, 0), None);
    assert_eq!(buffer.get_pixel(0, 2), None);
    assert_eq!(buffer.get_pixel(u32::MAX, u32::MAX), None);
}

#[test]
fn filled_image_has_one_color() {
    let color = rgba(10, 20, 30, 40);
    let buffer = PixelBuffer::filled(3, 2, color).unwrap();
    assert_eq!(buffer.as_raw().len(), 24);
    for y in 0..2 {
        for x in 0..3 {
            assert_eq!(buffer.get_pixel(x, y), Some(color));
        }
    }
    assert_eq!(PixelBuffer::filled(0, 0, color).unwrap().pixel_count(), 0);
}

#[test]
fn image_beyond_memory_is_not_made() {
    assert!(PixelBuffer::filled(u32::MAX, u32::MAX, rgba(0, 0, 0, 0)).is_none());
    assert!(PixelBuffer::filled(65536, 65536, rgba(0, 0, 0, 0)).is_none());
    assert!(PixelBuffer::filled(u32::MAX, 2, rgba(0, 0, 0, 0)).is_none());
}

#[test]
fn put_pixel_changes_one_pixel() {
    let mut buffer = PixelBuffer::filled(3, 2, rgba(1, 1, 1, 1)).unwrap();
    buffer.put_pixel(1, 1, rgba(5, 6, 7, 8));
    for y in 0..2 {
        for x in 0..3 {
            let expected = if (x, y) == (1, 1) { rgba(5, 6, 7, 8) } else { rgba(1, 1, 1, 1) };
            assert_eq!(buffer.get_pixel(x, y), Some(expected));
        }
    }
}
