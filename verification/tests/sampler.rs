use emvision::sampler::{Sampler, SamplerError, SamplerMode};

fn made(mode: SamplerMode, src: (u32, u32), canvas: (u32, u32), scale: u32) -> Sampler {
    match Sampler::new(mode, src, canvas, scale) {
        Ok(sampler) => sampler,
        Err(error) => panic!("unexpected {:?}", error),
    }
}

fn rejected(mode: SamplerMode, src: (u32, u32), canvas: (u32, u32), scale: u32) -> Option<SamplerError> {
    made(mode, src, canvas, scale).rejected()
}

#[test]
fn mode_names_are_recognized() {
    assert_eq!(SamplerMode::try_from("source"), Ok(SamplerMode::Source));
    assert_eq!(SamplerMode::try_from("destination"), Ok(SamplerMode::Destination));
}

#[test]
fn other_mode_names_are_refused() {
    assert_eq!(SamplerMode::try_from("Source"), Err(SamplerError::UnrecognizedMode));
    assert_eq!(SamplerMode::try_from("dest"), Err(SamplerError::UnrecognizedMode));
    assert_eq!(SamplerMode::try_from(""), Err(SamplerError::UnrecognizedMode));
    assert_eq!(SamplerMode::try_from("source "), Err(SamplerError::UnrecognizedMode));
}

#[test]
fn coordinates_in_source_mode() {
    let sampler = made(SamplerMode::Source, (7, 5), (21, 15), 3);
    assert_eq!(sampler.coordinates(0, 0), ((0, 0), (0, 0)));
    assert_eq!(sampler.coordinates(6, 4), ((6, 4), (18, 12)));
    assert_eq!(sampler.coordinates(2, 3), ((2, 3), (6, 9)));
}

#[test]
fn coordinates_in_destination_mode() {
    let sampler = made(SamplerMode::Destination, (7, 5), (21, 15), 3);
    assert_eq!(sampler.coordinates(0, 0), ((0, 0), (0, 0)));
    assert_eq!(sampler.coordinates(20, 14), ((6, 4), (20, 14)));
    assert_eq!(sampler.coordinates(5, 7), ((1, 2), (5, 7)));
    assert_eq!(sampler.coordinates(2, 2), ((0, 0), (2, 2)));
}

#[test]
fn source_mode_multiplies_by_scale() {
    let mut sampler = made(SamplerMode::Source, (7, 5), (21, 15), 3);
    for _ in 0..2000 {
        let ((sx, sy), (cx, cy)) = sampler.sample();
        assert!(sx < 7 && sy < 5);
        assert_eq!((cx, cy), (sx * 3, sy * 3));
    }
}

#[test]
fn destination_mode_divides_by_scale() {
    let mut sampler = made(SamplerMode::Destination, (7, 5), (21, 15), 3);
    for _ in 0..2000 {
        let ((sx, sy), (cx, cy)) = sampler.sample();
        assert!(cx < 21 && cy < 15);
        assert_eq!((sx, sy), (cx / 3, cy / 3));
    }
}

#[test]
fn source_mode_reaches_every_source_pixel() {
    let mut sampler = made(SamplerMode::Source, (4, 3), (8, 6), 2);
    let mut seen = [[0u32; 4]; 3];
    for _ in 0..12000 {
        let ((sx, sy), _) = sampler.sample();
        seen[sy as usize][sx as usize] += 1;
    }
    for row in seen.iter() {
        for count in row.iter() {
            assert!(*count > 700 && *count < 1300, "count {}", count);
        }
    }
}

#[test]
fn destination_mode_reaches_every_canvas_pixel() {
    let mut sampler = made(SamplerMode::Destination, (2, 2), (4, 4), 2);
    let mut seen = [[false; 4]; 4];
    for _ in 0..4000 {
        let (_, (cx, cy)) = sampler.sample();
        seen[cy as usize][cx as usize] = true;
    }
    assert!(seen.iter().all(|row| row.iter().all(|hit| *hit)));
}

#[test]
fn scale_zero_in_source_mode_maps_everything_to_the_origin() {
    let mut sampler = made(SamplerMode::Source, (3, 3), (0, 0), 0);
    for _ in 0..100 {
        let (_, canvas) = sampler.sample();
        assert_eq!(canvas, (0, 0));
    }
}

#[test]
fn every_configuration_makes_a_sampler() {
    for mode in [SamplerMode::Source, SamplerMode::Destination] {
        for (src, canvas, scale) in [
            ((0u32, 0u32), (0u32, 0u32), 0u32),
            ((0, 5), (10, 10), 1),
            ((5, 5), (0, 5), 1),
            ((5, 5), (5, 5), 0),
            ((3, 1), (0, 0), u32::MAX),
            ((u32::MAX, u32::MAX), (u32::MAX, u32::MAX), u32::MAX),
            ((7, 5), (21, 15), 3),
        ] {
            assert!(Sampler::new(mode, src, canvas, scale).is_ok());
        }
    }
}

#[test]
fn sound_configurations_are_not_rejected() {
    assert_eq!(rejected(SamplerMode::Source, (7, 5), (21, 15), 3), None);
    assert_eq!(rejected(SamplerMode::Destination, (7, 5), (21, 15), 3), None);
    assert_eq!(rejected(SamplerMode::Source, (3, 3), (0, 0), 0), None);
    assert_eq!(rejected(SamplerMode::Source, (1, 1), (1, 1), u32::MAX), None);
    assert_eq!(rejected(SamplerMode::Source, (65536, 1), (1, 1), 65537), None);
    assert_eq!(rejected(SamplerMode::Destination, (0, 0), (4, 4), 2), None);
    assert_eq!(rejected(SamplerMode::Destination, (1, 1), (u32::MAX, u32::MAX), u32::MAX), None);
}

#[test]
fn empty_source_is_rejected() {
    assert_eq!(rejected(SamplerMode::Source, (0, 5), (10, 10), 1), Some(SamplerError::EmptySource));
    assert_eq!(rejected(SamplerMode::Source, (5, 0), (10, 10), 1), Some(SamplerError::EmptySource));
    assert_eq!(rejected(SamplerMode::Source, (0, 0), (10, 10), u32::MAX), Some(SamplerError::EmptySource));
}

#[test]
fn overflowing_scale_is_rejected() {
    assert_eq!(rejected(SamplerMode::Source, (3, 1), (0, 0), u32::MAX), Some(SamplerError::CoordinateOverflow));
    assert_eq!(rejected(SamplerMode::Source, (1, 65537), (0, 0), 65536), Some(SamplerError::CoordinateOverflow));
    assert_eq!(rejected(SamplerMode::Source, (2, 1), (0, 0), u32::MAX), None);
    let sampler = made(SamplerMode::Source, (2, 1), (0, 0), u32::MAX);
    assert_eq!(sampler.coordinates(1, 0), ((1, 0), (u32::MAX, 0)));
}

#[test]
fn empty_canvas_is_rejected() {
    assert_eq!(rejected(SamplerMode::Destination, (5, 5), (0, 5), 1), Some(SamplerError::EmptyCanvas));
    assert_eq!(rejected(SamplerMode::Destination, (5, 5), (5, 0), 1), Some(SamplerError::EmptyCanvas));
    assert_eq!(rejected(SamplerMode::Destination, (5, 5), (0, 0), 0), Some(SamplerError::EmptyCanvas));
}

#[test]
fn zero_scale_in_destination_mode_is_rejected() {
    assert_eq!(rejected(SamplerMode::Destination, (5, 5), (5, 5), 0), Some(SamplerError::ZeroScale));
}

#[test]
fn destination_mode_ignores_the_source_dimensions() {
    let sampler = made(SamplerMode::Destination, (0, 0), (4, 4), 2);
    assert_eq!(sampler.coordinates(3, 1), ((1, 0), (3, 1)));
}
