use emvision::color::{channel_value, get_average_rgb, AverageRgb, Channel};
use emvision::pixel::{PixelBuffer, Rgba};

fn rgba(red: u8, green: u8, blue: u8, alpha: u8) -> Rgba {
    Rgba { red, green, blue, alpha }
}

fn mean(red: u64, green: u64, blue: u64, count: u32) -> AverageRgb {
    AverageRgb { red, green, blue, count }
}

fn image(width: u32, height: u32, pixels: &[Rgba]) -> PixelBuffer {
    let mut bytes = Vec::new();
    for pixel in pixels {
        bytes.extend_from_slice(&[pixel.red, pixel.green, pixel.blue, pixel.alpha]);
    }
    PixelBuffer::from_raw(width, height, bytes).unwrap()
}

#[test]
fn average_is_the_sum_over_the_count() {
    let img = image(2, 2, &[rgba(10, 20, 30, 255), rgba(20, 40, 60, 255), rgba(0, 0, 0, 255), rgba(255, 1, 2, 255)]);
    assert_eq!(get_average_rgb(&img), Some(mean(285, 61, 92, 4)));
}

#[test]
fn transparent_pixels_do_not_count() {
    let img = image(2, 2, &[rgba(10, 20, 30, 1), rgba(200, 200, 200, 0), rgba(30, 40, 50, 128), rgba(9, 9, 9, 0)]);
    assert_eq!(get_average_rgb(&img), Some(mean(40, 60, 80, 2)));
}

#[test]
fn image_without_visible_pixels_has_no_average() {
    let img = image(2, 1, &[rgba(10, 20, 30, 0), rgba(200, 200, 200, 0)]);
    assert_eq!(get_average_rgb(&img), None);
    assert_eq!(get_average_rgb(&image(0, 0, &[])), None);
}

#[test]
fn average_channels_lie_between_0_and_255() {
    let mut pixels = Vec::new();
    let mut seed: u32 = 12345;
    for _ in 0..64 {
        seed = seed.wrapping_mul(1664525).wrapping_add(1013904223);
        let bytes = seed.to_be_bytes();
        pixels.push(rgba(bytes[0], bytes[1], bytes[2], bytes[3] & 1));
    }
    let visible: Vec<&Rgba> = pixels.iter().filter(|pixel| pixel.alpha != 0).collect();
    let average = get_average_rgb(&image(8, 8, &pixels)).unwrap();
    assert!(average.is_valid());
    assert_eq!(average.count as usize, visible.len());
    assert_eq!(average.red, visible.iter().map(|pixel| pixel.red as u64).sum::<u64>());
    assert_eq!(average.green, visible.iter().map(|pixel| pixel.green as u64).sum::<u64>());
    assert_eq!(average.blue, visible.iter().map(|pixel| pixel.blue as u64).sum::<u64>());
    assert!(average.red <= 255 * average.count as u64);
    assert!(average.green <= 255 * average.count as u64);
    assert!(average.blue <= 255 * average.count as u64);
}

#[test]
fn single_color_image_has_that_color_as_average() {
    let img = PixelBuffer::filled(5, 7, rgba(12, 34, 56, 200)).unwrap();
    assert_eq!(get_average_rgb(&img), Some(mean(12 * 35, 34 * 35, 56 * 35, 35)));
}

#[test]
fn validity_of_an_average() {
    assert!(mean(0, 0, 0, 1).is_valid());
    assert!(mean(255, 255, 255, 1).is_valid());
    assert!(mean(510, 0, 3, 2).is_valid());
    assert!(!mean(0, 0, 0, 0).is_valid());
    assert!(!mean(256, 0, 0, 1).is_valid());
    assert!(!mean(0, 511, 0, 2).is_valid());
    assert!(!mean(0, 0, 1000, 3).is_valid());
    assert!(mean(255 * u32::MAX as u64, 0, 0, u32::MAX).is_valid());
}

#[test]
fn closer_compares_squared_distances() {
    let black = mean(0, 0, 0, 1);
    let white = mean(255, 255, 255, 1);
    let gray = mean(128, 128, 128, 1);
    let dark = rgba(10, 10, 10, 255);
    assert!(black.closer_than(&white, dark));
    assert!(black.closer_than(&gray, dark));
    assert!(gray.closer_than(&white, dark));
    assert!(!white.closer_than(&black, dark));
    assert!(!black.closer_than(&black, dark));
}

#[test]
fn closer_compares_means_with_different_counts() {
    // 100/3 = 33.33 and 67/2 = 33.5: a pixel at 33 is nearer to the first
    let third = mean(100, 100, 100, 3);
    let half = mean(67, 67, 67, 2);
    assert!(third.closer_than(&half, rgba(33, 33, 33, 255)));
    assert!(!half.closer_than(&third, rgba(33, 33, 33, 255)));
    assert!(half.closer_than(&third, rgba(34, 34, 34, 255)));
    // equal means with different counts are equally far
    let one = mean(50, 60, 70, 1);
    let four = mean(200, 240, 280, 4);
    assert!(!one.closer_than(&four, rgba(1, 2, 3, 255)));
    assert!(!four.closer_than(&one, rgba(1, 2, 3, 255)));
}

#[test]
fn closer_with_the_largest_counts() {
    let big = mean(255 * u32::MAX as u64, 0, 0, u32::MAX);
    let other = mean(254 * (u32::MAX as u64 - 1) + 253, 0, 0, u32::MAX - 1);
    let pixel = rgba(0, 255, 255, 255);
    assert!(other.closer_than(&big, pixel));
    assert!(!big.closer_than(&other, pixel));
    assert!(big.closer_than(&other, rgba(255, 0, 0, 255)));
}

#[test]
fn below_compares_channel_means() {
    let a = mean(100, 50, 0, 3);
    let b = mean(67, 50, 1, 2);
    assert!(a.is_below(&b, Channel::Red));
    assert!(!b.is_below(&a, Channel::Red));
    assert!(a.is_below(&b, Channel::Green));
    assert!(a.is_below(&b, Channel::Blue));
    assert!(!a.is_below(&a, Channel::Green));
}

#[test]
fn above_compares_a_pixel_with_a_channel_mean() {
    let a = mean(100, 50, 0, 3);
    assert!(a.is_above(rgba(33, 16, 0, 255), Channel::Red));
    assert!(!a.is_above(rgba(34, 16, 0, 255), Channel::Red));
    assert!(a.is_above(rgba(34, 16, 0, 255), Channel::Green));
    assert!(!a.is_above(rgba(34, 17, 0, 255), Channel::Green));
    assert!(!a.is_above(rgba(34, 17, 0, 255), Channel::Blue));
}

#[test]
fn shielding_compares_a_distance_with_a_plane() {
    let plane = mean(100, 0, 0, 1);
    let near = mean(10, 10, 10, 1);
    // the pixel is 90 from the plane in red and 5 * 5 * 3 = 75 (squared) from `near`
    assert!(plane.is_shielding(Channel::Red, rgba(10, 15, 15, 255).clone(), &mean(10, 10, 10, 1)));
    // the pixel is 2 from the plane in red, `near` is farther than that
    assert!(!plane.is_shielding(Channel::Red, rgba(98, 0, 0, 255), &near));
    // exactly as far as the plane: not shielded
    assert!(!plane.is_shielding(Channel::Red, rgba(95, 0, 0, 255), &mean(90, 0, 0, 1)));
}

#[test]
fn channels_of_a_pixel() {
    let pixel = rgba(1, 2, 3, 4);
    assert_eq!(channel_value(pixel, Channel::Red), 1);
    assert_eq!(channel_value(pixel, Channel::Green), 2);
    assert_eq!(channel_value(pixel, Channel::Blue), 3);
    assert_eq!(Channel::Red.next(), Channel::Green);
    assert_eq!(Channel::Green.next(), Channel::Blue);
    assert_eq!(Channel::Blue.next(), Channel::Red);
}
