use emvision::canvas::{CanvasError, CanvasManager};
use emvision::pixel::{PixelBuffer, Rgba};

fn rgba(red: u8, green: u8, blue: u8, alpha: u8) -> Rgba {
    Rgba { red, green, blue, alpha }
}

fn canvas(width: u32, height: u32, background: u32) -> CanvasManager {
    match CanvasManager::new(width, height, background) {
        Ok(canvas) => canvas,
        Err(error) => panic!("unexpected {:?}", error),
    }
}

fn pixel(canvas: &CanvasManager, x: u32, y: u32) -> Rgba {
    canvas.canvas().get_pixel(x, y).unwrap()
}

#[test]
fn new_canvas_has_the_background_color() {
    let white = canvas(4, 3, 0xFFFFFFFF);
    assert_eq!(white.canvas().width(), 4);
    assert_eq!(white.canvas().height(), 3);
    for y in 0..3 {
        for x in 0..4 {
            assert_eq!(pixel(&white, x, y), rgba(255, 255, 255, 255));
        }
    }
    let other = canvas(2, 2, 0x11223344);
    assert_eq!(pixel(&other, 1, 1), rgba(0x11, 0x22, 0x33, 0x44));
}

#[test]
fn canvas_beyond_memory_is_refused() {
    for (width, height) in [(u32::MAX, u32::MAX), (65536, 65536), (2, u32::MAX)] {
        match CanvasManager::new(width, height, 0) {
            Ok(_) => panic!("a canvas was made"),
            Err(error) => assert_eq!(error, CanvasError::TooLarge),
        }
    }
}

#[test]
fn opaque_tile_replaces_what_it_covers() {
    let mut canvas = canvas(4, 4, 0x0A141E80);
    let mut tile = PixelBuffer::filled(2, 2, rgba(1, 2, 3, 255)).unwrap();
    tile.put_pixel(1, 0, rgba(9, 8, 7, 255));
    canvas.place_emoji(&tile, 1, 2);
    for y in 0..4 {
        for x in 0..4 {
            let expected = match (x, y) {
                (2, 2) => rgba(9, 8, 7, 255),
                (1, 2) | (1, 3) | (2, 3) => rgba(1, 2, 3, 255),
                _ => rgba(0x0A, 0x14, 0x1E, 0x80),
            };
            assert_eq!(pixel(&canvas, x, y), expected);
        }
    }
}

#[test]
fn transparent_tile_changes_nothing() {
    let mut canvas = canvas(3, 3, 0x0A141E80);
    let tile = PixelBuffer::filled(2, 2, rgba(200, 100, 50, 0)).unwrap();
    canvas.place_emoji(&tile, 0, 0);
    canvas.place_emoji(&tile, 2, 2);
    for y in 0..3 {
        for x in 0..3 {
            assert_eq!(pixel(&canvas, x, y), rgba(0x0A, 0x14, 0x1E, 0x80));
        }
    }
}

#[test]
fn tile_is_clipped_at_the_edges() {
    let mut canvas = canvas(3, 3, 0xFFFFFFFF);
    let tile = PixelBuffer::filled(5, 5, rgba(0, 0, 0, 255)).unwrap();
    canvas.place_emoji(&tile, 2, 1);
    for y in 0..3 {
        for x in 0..3 {
            let expected = if x == 2 && y >= 1 { rgba(0, 0, 0, 255) } else { rgba(255, 255, 255, 255) };
            assert_eq!(pixel(&canvas, x, y), expected);
        }
    }
}

#[test]
fn tile_outside_the_canvas_changes_nothing() {
    let mut canvas = canvas(3, 3, 0xFFFFFFFF);
    let tile = PixelBuffer::filled(2, 2, rgba(0, 0, 0, 255)).unwrap();
    canvas.place_emoji(&tile, 3, 0);
    canvas.place_emoji(&tile, 0, 3);
    canvas.place_emoji(&tile, u32::MAX, u32::MAX);
    for y in 0..3 {
        for x in 0..3 {
            assert_eq!(pixel(&canvas, x, y), rgba(255, 255, 255, 255));
        }
    }
}

#[test]
fn translucent_tile_is_blended() {
    let mut canvas = canvas(1, 1, 0xFFFFFFFF);
    let tile = PixelBuffer::filled(1, 1, rgba(255, 0, 0, 128)).unwrap();
    canvas.place_emoji(&tile, 0, 0);
    // half-transparent red over white: red stays, green and blue fall to about one half
    let blended = pixel(&canvas, 0, 0);
    assert!(blended.red >= 254, "red {}", blended.red);
    assert!(blended.green >= 126 && blended.green <= 128, "green {}", blended.green);
    assert_eq!(blended.green, blended.blue);
    assert!(blended.alpha >= 254, "alpha {}", blended.alpha);
    assert_ne!(blended, rgba(255, 255, 255, 255));
    assert_ne!(blended, rgba(255, 0, 0, 128));
}

#[test]
fn translucent_tile_over_translucent_canvas() {
    let mut canvas = canvas(1, 1, 0x00000080);
    let tile = PixelBuffer::filled(1, 1, rgba(255, 255, 255, 128)).unwrap();
    canvas.place_emoji(&tile, 0, 0);
    let blended = pixel(&canvas, 0, 0);
    assert!(blended.alpha >= 190 && blended.alpha <= 192, "alpha {}", blended.alpha);
    assert!(blended.red >= 168 && blended.red <= 171, "red {}", blended.red);
}

#[test]
fn tile_with_mixed_opacity() {
    let mut canvas = canvas(2, 1, 0x102030FF);
    let mut tile = PixelBuffer::filled(2, 1, rgba(7, 7, 7, 0)).unwrap();
    tile.put_pixel(1, 0, rgba(70, 80, 90, 255));
    canvas.place_emoji(&tile, 0, 0);
    assert_eq!(pixel(&canvas, 0, 0), rgba(0x10, 0x20, 0x30, 0xFF));
    assert_eq!(pixel(&canvas, 1, 0), rgba(70, 80, 90, 255));
}

#[test]
fn canvas_without_pixels() {
    let mut empty = canvas(0, 7, 0xFFFFFFFF);
    assert_eq!(empty.canvas().width(), 0);
    assert_eq!(empty.canvas().height(), 7);
    assert!(empty.canvas().as_raw().is_empty());
    empty.place_emoji(&PixelBuffer::filled(2, 2, rgba(0, 0, 0, 255)).unwrap(), 0, 0);
    assert!(empty.canvas().as_raw().is_empty());
}

#[test]
fn tile_without_pixels_changes_nothing() {
    let mut canvas = canvas(2, 2, 0x01020304);
    canvas.place_emoji(&PixelBuffer::from_raw(0, 3, Vec::new()).unwrap(), 0, 0);
    canvas.place_emoji(&PixelBuffer::from_raw(3, 0, Vec::new()).unwrap(), 1, 1);
    for y in 0..2 {
        for x in 0..2 {
            assert_eq!(pixel(&canvas, x, y), rgba(1, 2, 3, 4));
        }
    }
}

#[test]
fn later_tiles_cover_earlier_ones() {
    let mut canvas = canvas(3, 1, 0xFFFFFFFF);
    canvas.place_emoji(&PixelBuffer::filled(2, 1, rgba(10, 0, 0, 255)).unwrap(), 0, 0);
    canvas.place_emoji(&PixelBuffer::filled(2, 1, rgba(0, 20, 0, 255)).unwrap(), 1, 0);
    assert_eq!(pixel(&canvas, 0, 0), rgba(10, 0, 0, 255));
    assert_eq!(pixel(&canvas, 1, 0), rgba(0, 20, 0, 255));
    assert_eq!(pixel(&canvas, 2, 0), rgba(0, 20, 0, 255));
}
