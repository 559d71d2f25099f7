//! The calls into the image, base64 and natord crates. Each result that
//! depends on its arguments alone, and takes more than a few lines to state,
//! is given a name here.

use vstd::prelude::*;

use std::cmp::Ordering;

use base64::Engine;

verus! {

/// What decoding `bytes` (format guessed from the content) and converting the
/// image to RGBA8 gives: width, height and row-major pixel bytes; `None` where
/// the bytes are not a decodable image.
pub uninterp spec fn decoded_rgba(bytes: Seq<u8>) -> Option<(u32, u32, Seq<u8>)>;

/// The file an RGBA8 image of `width` by `height` with `pixels` becomes when
/// written in the format that the file extension `ext` names; `None` where
/// `ext` names no known format, or where the encoder refuses the image.
pub uninterp spec fn encoded_as(ext: Seq<char>, width: u32, height: u32, pixels: Seq<u8>) -> Option<
    Seq<u8>,
>;

/// The standard, padded base64 text of `bytes`.
pub uninterp spec fn base64_of(bytes: Seq<u8>) -> Seq<char>;

/// `names` in natural order (runs of digits compare as numbers), stably.
pub uninterp spec fn natural_order(names: Seq<Seq<char>>) -> Seq<Seq<char>>;

/// Relies on `image::guess_format` (magic bytes, built-in table) and
/// `image::load_from_memory_with_format`, which decodes with the built-in
/// decoder of that format, then on `DynamicImage::to_rgba8` and
/// `ImageBuffer::into_raw`: decoding depends on the bytes alone, and an RGBA8
/// buffer holds four bytes per pixel.
#[verifier::external_body]
pub(crate) fn decode_rgba(bytes: &[u8]) -> (r: Option<(u32, u32, Vec<u8>)>)
    ensures
        r is None <==> decoded_rgba(bytes@) is None,
        r matches Some(t) ==> decoded_rgba(bytes@) == Some((t.0, t.1, t.2@)),
        r matches Some(t) ==> t.2@.len() == t.0 * t.1 * 4,
{
    let format = image::guess_format(bytes).ok()?;
    let rgba = image::load_from_memory_with_format(bytes, format).ok()?.to_rgba8();
    Some((rgba.width(), rgba.height(), rgba.into_raw()))
}

/// Relies on `ImageFormat::from_extension`, `ImageBuffer::from_raw` (which
/// accepts a buffer of exactly `width * height * 4` bytes) and
/// `DynamicImage::write_to` into an in-memory cursor, which converts the
/// pixels to a colour type that the format's encoder takes.
#[verifier::external_body]
pub(crate) fn encode_as(ext: &str, width: u32, height: u32, pixels: Vec<u8>) -> (r: Option<Vec<u8>>)
    requires
        pixels@.len() == width * height * 4,
    ensures
        r is None <==> encoded_as(ext@, width, height, pixels@) is None,
        r matches Some(b) ==> encoded_as(ext@, width, height, pixels@) == Some(b@),
{
    let format = image::ImageFormat::from_extension(ext)?;
    let img = image::DynamicImage::ImageRgba8(image::RgbaImage::from_raw(width, height, pixels)?);
    let mut out = std::io::Cursor::new(Vec::new());
    img.write_to(&mut out, format).ok()?;
    Some(out.into_inner())
}

/// Relies on `base64::engine::general_purpose::STANDARD.encode`, which
/// writes four characters for each started group of three bytes, and panics
/// only where that length overflows `usize`.
#[verifier::external_body]
pub(crate) fn to_base64(bytes: &[u8]) -> (r: String)
    requires
        4 * ((bytes@.len() + 2) / 3) <= usize::MAX,
    ensures
        r@ == base64_of(bytes@),
        r@.len() == 4 * ((bytes@.len() + 2) / 3),
{
    base64::engine::general_purpose::STANDARD.encode(bytes)
}

/// Relies on `slice::sort_by` (stable) with `natord::compare` as the order.
#[verifier::external_body]
pub(crate) fn sort_natural(names: &mut Vec<String>)
    ensures
        final(names)@.map_values(|s: String| s@) == natural_order(
            old(names)@.map_values(|s: String| s@),
        ),
        final(names)@.to_multiset() == old(names)@.to_multiset(),
{
    names.sort_by(|a: &String, b: &String| -> Ordering { natord::compare(a, b) })
}

} // verus!
