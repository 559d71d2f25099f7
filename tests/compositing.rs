use image_slicer::error::ProcessError;
use image_slicer::raster::{compose, Raster};

fn raster(width: u32, height: u32, fill: u8) -> Raster {
    Raster { width, height, pixels: vec![fill; (width * height * 4) as usize] }
}

#[test]
fn compose_stacks_heights_and_bytes() {
    let c = compose(&vec![raster(2, 1, 1), raster(2, 3, 2)]).unwrap();
    assert_eq!(c.width, 2);
    assert_eq!(c.height, 4);
    let mut expected = vec![1u8; 8];
    expected.extend(vec![2u8; 24]);
    assert_eq!(c.pixels, expected);
}

#[test]
fn compose_single_source_is_unchanged() {
    let c = compose(&vec![raster(3, 2, 9)]).unwrap();
    assert_eq!((c.width, c.height), (3, 2));
    assert_eq!(c.pixels, vec![9u8; 24]);
}

#[test]
fn compose_rejects_width_mismatch() {
    let r = compose(&vec![raster(2, 1, 0), raster(2, 1, 0), raster(3, 1, 0), raster(4, 1, 0)]);
    assert_eq!(r.unwrap_err(), ProcessError::WidthMismatch { index: 2 });
}

#[test]
fn compose_rejects_empty_list() {
    assert_eq!(compose(&vec![]).unwrap_err(), ProcessError::EmptySource);
}

#[test]
fn compose_rejects_height_overflow() {
    let tall = Raster { width: 0, height: u32::MAX, pixels: vec![] };
    let more = Raster { width: 0, height: 1, pixels: vec![] };
    assert_eq!(compose(&vec![tall, more]).unwrap_err(), ProcessError::HeightOverflow);
}

#[test]
fn band_copies_rows() {
    let mut r = raster(1, 3, 0);
    r.pixels = (0u8..12).collect();
    assert_eq!(r.band(1, 3), (4u8..12).collect::<Vec<u8>>());
    assert_eq!(r.band(2, 2), Vec::<u8>::new());
}
