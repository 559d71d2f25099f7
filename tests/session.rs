use base64::Engine;
use image_slicer::cache::assemble_cached;
use image_slicer::error::ProcessError;
use image_slicer::processor::{compose_progress, decode_source, needs_slicing, ImageProcessor};
use image_slicer::raster::Raster;

fn page(width: u32, height: u32, seed: u8) -> image::RgbaImage {
    image::RgbaImage::from_fn(width, height, |x, y| {
        image::Rgba([x as u8 ^ seed, y as u8, seed, 255])
    })
}

fn png(img: &image::RgbaImage) -> Vec<u8> {
    let mut c = std::io::Cursor::new(Vec::new());
    img.write_to(&mut c, image::ImageFormat::Png).unwrap();
    c.into_inner()
}

fn loaded(max: u32) -> ImageProcessor {
    let mut p = ImageProcessor::new("chapter");
    p.set_max_slice_height(max);
    let sources = vec![png(&page(4, 3, 1)), png(&page(4, 2, 2))];
    p.load_images(&sources).unwrap();
    p
}

#[test]
fn new_session_is_empty() {
    let p = ImageProcessor::new("some/chapter");
    assert!(p.big_image.is_none());
    assert_eq!(p.chapter_path, "some/chapter");
    assert_eq!(p.max_slice_height, 12000);
    assert_eq!(p.get_image_data().slices.len(), 0);
}

#[test]
fn load_stacks_decoded_pages() {
    let p = loaded(12000);
    let d = p.get_image_data();
    assert_eq!((d.total_width, d.total_height), (4, 5));
    assert_eq!(d.slices.len(), 1);
    let img = p.big_image.as_ref().unwrap();
    let mut expected = page(4, 3, 1).into_raw();
    expected.extend(page(4, 2, 2).into_raw());
    assert_eq!(img.pixels, expected);
}

#[test]
fn load_slices_by_maximum_height() {
    let p = loaded(2);
    let d = p.get_image_data();
    let b: Vec<(u32, u32)> = d.slices.iter().map(|s| (s.start_y, s.end_y)).collect();
    assert_eq!(b, vec![(0, 1), (1, 2), (2, 5)]);
}

#[test]
fn load_reports_undecodable_source() {
    let mut p = ImageProcessor::new("c");
    let sources = vec![png(&page(4, 3, 1)), vec![1, 2, 3]];
    assert_eq!(p.load_images(&sources).unwrap_err(), ProcessError::Decode { index: 1 });
    assert!(p.big_image.is_none());
}

#[test]
fn load_reports_width_mismatch() {
    let mut p = ImageProcessor::new("c");
    let sources = vec![png(&page(4, 3, 1)), png(&page(5, 3, 1))];
    assert_eq!(p.load_images(&sources).unwrap_err(), ProcessError::WidthMismatch { index: 1 });
}

#[test]
fn load_reports_no_sources() {
    let mut p = ImageProcessor::new("c");
    assert_eq!(p.load_images(&vec![]).unwrap_err(), ProcessError::EmptySource);
}

#[test]
fn slice_bytes_out_of_range() {
    let p = loaded(12000);
    assert_eq!(p.get_slice_as_bytes(1).unwrap_err(), ProcessError::InvalidIndex { index: 1 });
    assert_eq!(p.get_slice_as_base64(7).unwrap_err(), ProcessError::InvalidIndex { index: 7 });
}

#[test]
fn slice_bytes_need_a_composite() {
    let p = ImageProcessor::new("c");
    assert_eq!(p.get_slice_as_bytes(0).unwrap_err(), ProcessError::NotLoaded);
    assert_eq!(p.get_full_bytes().unwrap_err(), ProcessError::NotLoaded);
    assert_eq!(p.encode_slices().unwrap_err(), ProcessError::NotLoaded);
    assert_eq!(p.export_slices(&[1], "png").unwrap_err(), ProcessError::NotLoaded);
}

#[test]
fn slice_bytes_hold_the_slice() {
    let p = loaded(2);
    let bytes = p.get_slice_as_bytes(2).unwrap();
    let back = image::load_from_memory(&bytes).unwrap().to_rgba8();
    assert_eq!(back.dimensions(), (4, 3));
    let full = p.big_image.as_ref().unwrap();
    assert_eq!(back.into_raw(), full.pixels[2 * 16..5 * 16].to_vec());
}

#[test]
fn slice_base64_encodes_the_png() {
    let p = loaded(2);
    let bytes = p.get_slice_as_bytes(0).unwrap();
    let text = p.get_slice_as_base64(0).unwrap();
    assert_eq!(text, base64::engine::general_purpose::STANDARD.encode(&bytes));
    assert_ne!(text.as_bytes(), &bytes[..]);
}

#[test]
fn full_bytes_of_single_slice() {
    let p = loaded(12000);
    assert_eq!(p.get_full_bytes().unwrap(), p.get_slice_as_bytes(0).unwrap());
}

#[test]
fn full_bytes_refused_when_sliced() {
    let p = loaded(2);
    assert_eq!(p.get_full_bytes().unwrap_err(), ProcessError::Sliced);
}

#[test]
fn full_bytes_refused_when_too_wide() {
    let mut p = ImageProcessor::new("c");
    p.load_images(&vec![png(&page(32001, 1, 0))]).unwrap();
    assert_eq!(p.get_full_bytes().unwrap_err(), ProcessError::TooLargeForTransfer);
}

#[test]
fn transfer_limit() {
    assert!(!needs_slicing(32000, 32000));
    assert!(needs_slicing(32001, 10));
    assert!(needs_slicing(10, 32001));
}

#[test]
fn progress_spans_decoding_phase() {
    assert_eq!(compose_progress(0, 4), 0);
    assert_eq!(compose_progress(1, 4), 12);
    assert_eq!(compose_progress(3, 7), 20);
    assert_eq!(compose_progress(4, 4), 48);
}

#[test]
fn cache_round_trip_keeps_composite_and_bounds() {
    let p = loaded(2);
    let files = p.encode_slices().unwrap();
    assert_eq!(files.len(), 3);
    let mut q = ImageProcessor::new("chapter");
    let d = q.try_load_cached_slices(&files).unwrap();
    let a = p.get_image_data();
    assert_eq!((d.total_width, d.total_height), (a.total_width, a.total_height));
    assert_eq!(d.slices, a.slices);
    assert_eq!(q.big_image.as_ref().unwrap().pixels, p.big_image.as_ref().unwrap().pixels);
}

#[test]
fn cache_keeps_its_own_bounds() {
    let p = loaded(2);
    let files = p.encode_slices().unwrap();
    let mut q = ImageProcessor::new("chapter");
    q.set_max_slice_height(12000);
    let d = q.try_load_cached_slices(&files).unwrap();
    assert_eq!(d.slices.len(), 3);
}

#[test]
fn cache_with_two_widths_is_ignored() {
    let mut q = ImageProcessor::new("chapter");
    let files = vec![png(&page(4, 2, 0)), png(&page(3, 2, 0))];
    assert!(q.try_load_cached_slices(&files).is_none());
    assert!(q.big_image.is_none());
}

#[test]
fn cache_with_bad_file_or_none_is_ignored() {
    let mut q = ImageProcessor::new("chapter");
    assert!(q.try_load_cached_slices(&vec![png(&page(4, 2, 0)), vec![0u8; 4]]).is_none());
    assert!(q.try_load_cached_slices(&vec![]).is_none());
}

#[test]
fn assemble_uses_slice_heights() {
    let a = Raster { width: 1, height: 2, pixels: vec![1; 8] };
    let b = Raster { width: 1, height: 3, pixels: vec![2; 12] };
    let (c, s) = assemble_cached(&vec![a, b]).unwrap();
    assert_eq!(c.height, 5);
    let b: Vec<(usize, u32, u32)> = s.iter().map(|x| (x.index, x.start_y, x.end_y)).collect();
    assert_eq!(b, vec![(0, 0, 2), (1, 2, 5)]);
}

#[test]
fn export_encodes_each_region() {
    let p = loaded(12000);
    let files = p.export_slices(&[1, 3, 99], "png").unwrap();
    assert_eq!(files.len(), 3);
    let heights: Vec<u32> =
        files.iter().map(|f| image::load_from_memory(f).unwrap().height()).collect();
    assert_eq!(heights, vec![1, 2, 2]);
}

#[test]
fn export_in_another_format() {
    let p = loaded(12000);
    let files = p.export_slices(&[2], "bmp").unwrap();
    assert_eq!(files.len(), 2);
    assert_eq!(image::guess_format(&files[0]).unwrap(), image::ImageFormat::Bmp);
}

#[test]
fn export_with_unknown_format_fails() {
    let p = loaded(12000);
    assert_eq!(p.export_slices(&[2], "xyz").unwrap_err(), ProcessError::Encode { index: 0 });
}

#[test]
fn export_as_jpeg() {
    let p = loaded(12000);
    for ext in ["jpg", "jpeg", "JPG"] {
        let files = p.export_slices(&[2], ext).unwrap();
        assert_eq!(files.len(), 2);
        assert_eq!(image::guess_format(&files[0]).unwrap(), image::ImageFormat::Jpeg);
        let back = image::load_from_memory(&files[1]).unwrap();
        assert_eq!((back.width(), back.height()), (4, 3));
    }
}

#[test]
fn export_as_gif_and_tiff() {
    let p = loaded(12000);
    let gif = p.export_slices(&[], "gif").unwrap();
    assert_eq!(image::guess_format(&gif[0]).unwrap(), image::ImageFormat::Gif);
    let tiff = p.export_slices(&[], "tiff").unwrap();
    assert_eq!(image::guess_format(&tiff[0]).unwrap(), image::ImageFormat::Tiff);
}

#[test]
fn decode_source_gives_rgba_pixels() {
    let r = decode_source(&png(&page(3, 2, 5))).unwrap();
    assert_eq!((r.width, r.height), (3, 2));
    assert_eq!(r.pixels, page(3, 2, 5).into_raw());
    assert!(decode_source(&[0u8, 1, 2, 3]).is_none());
    assert!(decode_source(&[]).is_none());
}

#[test]
fn load_rasters_slices_the_stack() {
    let mut p = ImageProcessor::new("c");
    p.set_max_slice_height(3);
    let rasters = vec![
        Raster { width: 1, height: 4, pixels: vec![1; 16] },
        Raster { width: 1, height: 3, pixels: vec![2; 12] },
    ];
    let d = p.load_rasters(&rasters).unwrap();
    assert_eq!(d.total_height, 7);
    let b: Vec<(u32, u32)> = d.slices.iter().map(|s| (s.start_y, s.end_y)).collect();
    assert_eq!(b, vec![(0, 2), (2, 4), (4, 7)]);
}

#[test]
fn load_reports_first_undecodable_before_width() {
    let mut p = ImageProcessor::new("c");
    let sources = vec![png(&page(4, 3, 1)), png(&page(5, 3, 1)), vec![9u8; 10]];
    assert_eq!(p.load_images(&sources).unwrap_err(), ProcessError::Decode { index: 2 });
}
