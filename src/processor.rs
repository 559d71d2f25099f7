//! One chapter session: the resident composite, its slices, and the
//! operations the surrounding application performs on them.

use vstd::prelude::*;

use crate::cache::{assemble_cached, cumulative_slices};
use crate::codec::{decode_rgba, decoded_rgba, encode_as, encoded_as, to_base64, base64_of};
use crate::error::ProcessError;
use crate::partition::{
    covers,
    lemma_short_composite_single_slice,
    lemma_tall_composite_partition,
    max_height_slices,
    partition_by_max_height,
    separator_regions,
    partition_by_separators,
    ImageSlice,
};
use crate::raster::{
    band_of,
    compose,
    composable,
    first_width_mismatch,
    stacked,
    total_height,
    uniform_width,
    views,
    well_formed,
    Raster,
    RasterView,
};

verus! {

/// Default maximum slice height, in rows.
pub const DEFAULT_MAX_SLICE_HEIGHT: u32 = 12000;

/// Largest width or height of a composite that may be handed over whole.
pub const TRANSFER_LIMIT: u32 = 32000;

/// Dimensions of the composite and its current slices.
#[derive(Debug)]
pub struct ImageData {
    pub total_width: u32,
    pub total_height: u32,
    pub slices: Vec<ImageSlice>,
}

impl View for ImageData {
    type V = (u32, u32, Seq<ImageSlice>);

    open spec fn view(&self) -> (u32, u32, Seq<ImageSlice>) {
        (self.total_width, self.total_height, self.slices@)
    }
}

impl ImageData {
    /// A copy with the same dimensions and slices.
    pub fn duplicate(&self) -> (r: ImageData)
        ensures
            r@ == self@,
    {
        let mut slices: Vec<ImageSlice> = Vec::new();
        let mut i: usize = 0;
        while i < self.slices.len()
            invariant
                i <= self.slices@.len(),
                slices@ == self.slices@.subrange(0, i as int),
            decreases self.slices@.len() - i,
        {
            slices.push(self.slices[i]);
            i = i + 1;
            assert(slices@ =~= self.slices@.subrange(0, i as int));
        }
        assert(self.slices@.subrange(0, i as int) =~= self.slices@);
        ImageData { total_width: self.total_width, total_height: self.total_height, slices }
    }
}

pub open spec fn byte_views(v: Seq<Vec<u8>>) -> Seq<Seq<u8>> {
    v.map_values(|b: Vec<u8>| b@)
}

/// `b` decodes to a raster whose byte count matches its dimensions.
pub open spec fn decodes(b: Seq<u8>) -> bool {
    decoded_rgba(b) matches Some(t) && well_formed(t)
}

pub open spec fn all_decode(bs: Seq<Seq<u8>>) -> bool {
    forall|i: int| 0 <= i < bs.len() ==> decodes(#[trigger] bs[i])
}

/// `k` is the first position of `bs` that does not decode.
pub open spec fn first_undecodable(bs: Seq<Seq<u8>>, k: int) -> bool {
    &&& 0 <= k < bs.len()
    &&& !decodes(bs[k])
    &&& forall|j: int| 0 <= j < k ==> decodes(#[trigger] bs[j])
}

pub open spec fn decoded_views(bs: Seq<Seq<u8>>) -> Seq<RasterView> {
    bs.map_values(|b: Seq<u8>| decoded_rgba(b)->Some_0)
}

pub open spec fn png_ext() -> Seq<char> {
    seq!['p', 'n', 'g']
}

/// What the slice or region `[start, end)` of the raster `img` encodes to as
/// a file with extension `ext`.
pub open spec fn region_file(ext: Seq<char>, img: RasterView, start: u32, end: u32) -> Option<Seq<u8>> {
    encoded_as(ext, img.0, (end - start) as u32, band_of(img.2, img.0, start as int, end as int))
}

/// What slice `i` of the session's slice list encodes to as PNG.
pub open spec fn slice_png(img: RasterView, s: ImageSlice) -> Option<Seq<u8>> {
    region_file(png_ext(), img, s.start_y, s.end_y)
}

/// Decode each of `files`; `Err(k)` names the first one that does not decode.
/// Decode one encoded source or cached slice file to RGBA8; `None` where it
/// is not a decodable image.
pub fn decode_source(bytes: &[u8]) -> (r: Option<Raster>)
    ensures
        r is None <==> !decodes(bytes@),
        r matches Some(x) ==> x.wf() && Some(x@) == decoded_rgba(bytes@),
{
    match decode_rgba(bytes) {
        None => None,
        Some((w, h, pixels)) => Some(Raster { width: w, height: h, pixels }),
    }
}

fn decode_all(files: &Vec<Vec<u8>>) -> (r: Result<Vec<Raster>, usize>)
    ensures
        r is Ok <==> all_decode(byte_views(files@)),
        r matches Ok(v) ==> views(v@) == decoded_views(byte_views(files@)) && forall|i: int|
            0 <= i < v@.len() ==> (#[trigger] v@[i]).wf(),
        r matches Err(k) ==> first_undecodable(byte_views(files@), k as int),
{
    let ghost bs = byte_views(files@);
    let mut out: Vec<Raster> = Vec::new();
    let mut i: usize = 0;
    while i < files.len()
        invariant
            bs == byte_views(files@),
            i <= bs.len(),
            forall|j: int| 0 <= j < i ==> decodes(#[trigger] bs[j]),
            out@.len() == i,
            views(out@) == decoded_views(bs).subrange(0, i as int),
            forall|j: int| 0 <= j < out@.len() ==> (#[trigger] out@[j]).wf(),
        decreases bs.len() - i,
    {
        assert(bs[i as int] == files@[i as int]@);
        match decode_source(files[i].as_slice()) {
            None => {
                return Err(i);
            },
            Some(raster) => {
                let ghost prev = out@;
                out.push(raster);
                assert forall|j: int| 0 <= j < i + 1 implies views(out@)[j] == decoded_views(bs)[j] by {
                    if j < i {
                        assert(out@[j] == prev[j]);
                        assert(views(prev)[j] == decoded_views(bs).subrange(0, i as int)[j]);
                    }
                }
                assert(views(out@) =~= decoded_views(bs).subrange(0, i + 1));
                i = i + 1;
            },
        }
    }
    assert(decoded_views(bs).subrange(0, i as int) =~= decoded_views(bs));
    Ok(out)
}

/// What the slice `[s.start_y, s.end_y)` of `img` holds.
pub open spec fn slice_view(img: RasterView, s: ImageSlice) -> RasterView {
    (img.0, s.height, band_of(img.2, img.0, s.start_y as int, s.end_y as int))
}

proof fn lemma_cache_prefix(img: RasterView, slices: Seq<ImageSlice>, dv: Seq<RasterView>, k: int)
    requires
        well_formed(img),
        covers(slices, img.0, img.1),
        dv.len() == slices.len(),
        forall|i: int| 0 <= i < slices.len() ==> #[trigger] dv[i] == slice_view(img, slices[i]),
        0 < k <= slices.len(),
    ensures
        total_height(dv.subrange(0, k)) == slices[k - 1].end_y,
        stacked(dv.subrange(0, k)) == img.2.subrange(0, slices[k - 1].end_y * img.0 * 4),
    decreases k,
{
    let w = img.0 as int;
    let s = slices[k - 1];
    assert(dv.subrange(0, k).drop_last() =~= dv.subrange(0, k - 1));
    assert(0 <= s.start_y * w * 4 <= s.end_y * w * 4 <= img.1 * w * 4) by (nonlinear_arith)
        requires
            0 <= s.start_y <= s.end_y <= img.1,
            w >= 0,
    ;
    assert(img.0 * img.1 * 4 == img.1 * w * 4) by (nonlinear_arith)
        requires
            w == img.0,
    ;
    assert(dv[k - 1] == slice_view(img, s));
    assert(s.end_y == s.start_y + s.height);
    if k == 1 {
        assert(dv.subrange(0, 0) =~= Seq::<RasterView>::empty());
        assert(total_height(dv.subrange(0, 0)) == 0);
        assert(stacked(dv.subrange(0, 0)) == Seq::<u8>::empty());
        assert(dv.subrange(0, k).last() == dv[0]);
        assert(s.start_y == 0);
        assert(s.start_y * w * 4 == 0);
        assert(stacked(dv.subrange(0, k)) =~= img.2.subrange(0, s.end_y * w * 4));
    } else {
        lemma_cache_prefix(img, slices, dv, k - 1);
        assert(slices[k - 2].end_y == s.start_y);
        assert(stacked(dv.subrange(0, k)) =~= img.2.subrange(0, s.end_y * w * 4));
    }
}

/// Persisting the slices of a composite and rebuilding from the persisted
/// files gives back the same composite and the same slice bounds, wherever
/// each persisted slice file decodes back to the slice it was made from.
pub proof fn lemma_cache_round_trip(img: RasterView, slices: Seq<ImageSlice>, files: Seq<Seq<u8>>)
    requires
        well_formed(img),
        covers(slices, img.0, img.1),
        files.len() == slices.len(),
        forall|i: int|
            0 <= i < slices.len() ==> slice_png(img, #[trigger] slices[i]) == Some(files[i]),
        forall|i: int|
            0 <= i < slices.len() ==> decoded_rgba(#[trigger] files[i]) == Some(
                slice_view(img, slices[i]),
            ),
    ensures
        all_decode(files),
        composable(decoded_views(files)),
        decoded_views(files)[0].0 == img.0,
        total_height(decoded_views(files)) == img.1,
        stacked(decoded_views(files)) == img.2,
        cumulative_slices(decoded_views(files)) == slices,
{
    let dv = decoded_views(files);
    let w = img.0 as int;
    assert forall|i: int| 0 <= i < files.len() implies decodes(#[trigger] files[i]) && dv[i]
        == slice_view(img, slices[i]) by {
        let s = slices[i];
        assert(0 <= s.start_y * w * 4 <= s.end_y * w * 4 <= img.1 * w * 4) by (nonlinear_arith)
            requires
                0 <= s.start_y <= s.end_y <= img.1,
                w >= 0,
        ;
        assert(img.0 * img.1 * 4 == img.1 * w * 4) by (nonlinear_arith)
        requires
            w == img.0,
    ;
        assert(s.end_y * w * 4 - s.start_y * w * 4 == w * s.height * 4) by (nonlinear_arith)
            requires
                s.height == s.end_y - s.start_y,
        ;
    }
    let n = slices.len() as int;
    lemma_cache_prefix(img, slices, dv, n);
    assert(dv.subrange(0, n) =~= dv);
    assert(img.0 * img.1 * 4 == img.1 * w * 4) by (nonlinear_arith)
        requires
            w == img.0,
    ;
    assert(img.2.subrange(0, img.1 * w * 4) =~= img.2);
    assert forall|i: int| 0 <= i < dv.len() implies (#[trigger] dv[i]).0 == dv[0].0 by {}
    assert forall|i: int| 0 <= i < n implies #[trigger] cumulative_slices(dv)[i] == slices[i] by {
        if i > 0 {
            lemma_cache_prefix(img, slices, dv, i);
        } else {
            assert(dv.subrange(0, 0) =~= Seq::<RasterView>::empty());
        }
        lemma_cache_prefix(img, slices, dv, i + 1);
    }
    assert(cumulative_slices(dv) =~= slices);
}

/// The state of one chapter session.
pub struct ImageProcessor {
    pub big_image: Option<Raster>,
    pub image_data: ImageData,
    pub chapter_path: String,
    pub max_slice_height: u32,
}

impl ImageProcessor {
    /// The maximum slice height is positive, and a resident composite is well
    /// formed and described by `image_data`, whose slices cover it.
    pub open spec fn wf(&self) -> bool {
        &&& self.max_slice_height > 0
        &&& self.big_image matches Some(img) ==> {
            &&& img.wf()
            &&& self.image_data.total_width == img.width
            &&& self.image_data.total_height == img.height
            &&& covers(self.image_data.slices@, img.width, img.height)
        }
    }

    /// A session for the chapter at `chapter_path`, with nothing loaded.
    pub fn new(chapter_path: &str) -> (r: Self)
        ensures
            r.wf(),
            r.big_image is None,
            r.image_data@ == (0u32, 0u32, Seq::<ImageSlice>::empty()),
            r.chapter_path@ == chapter_path@,
            r.max_slice_height == DEFAULT_MAX_SLICE_HEIGHT,
    {
        ImageProcessor {
            big_image: None,
            image_data: ImageData { total_width: 0, total_height: 0, slices: Vec::new() },
            chapter_path: chapter_path.to_owned(),
            max_slice_height: DEFAULT_MAX_SLICE_HEIGHT,
        }
    }

    /// Set the maximum slice height used by later loads.
    pub fn set_max_slice_height(&mut self, height: u32)
        requires
            old(self).wf(),
            height > 0,
        ensures
            final(self).wf(),
            final(self).max_slice_height == height,
            final(self).big_image == old(self).big_image,
            final(self).image_data == old(self).image_data,
            final(self).chapter_path == old(self).chapter_path,
    {
        self.max_slice_height = height;
    }

    /// The dimensions and slices of the resident composite.
    pub fn get_image_data(&self) -> (r: &ImageData)
        ensures
            r == &self.image_data,
    {
        &self.image_data
    }

    /// Slice the resident composite by the maximum slice height.
    fn calculate_slices(&mut self)
        requires
            old(self).max_slice_height > 0,
            old(self).big_image matches Some(img) && img.wf() && old(self).image_data.total_width
                == img.width && old(self).image_data.total_height == img.height,
        ensures
            final(self).wf(),
            final(self).big_image == old(self).big_image,
            final(self).max_slice_height == old(self).max_slice_height,
            final(self).chapter_path == old(self).chapter_path,
            final(self).image_data.total_width == old(self).image_data.total_width,
            final(self).image_data.total_height == old(self).image_data.total_height,
            final(self).image_data.slices@ == max_height_slices(
                old(self).image_data.total_height,
                old(self).image_data.total_width,
                old(self).max_slice_height,
            ),
    {
        let h = self.image_data.total_height;
        let w = self.image_data.total_width;
        self.image_data.slices = partition_by_max_height(h, w, self.max_slice_height);
        proof {
            if h < self.max_slice_height {
                lemma_short_composite_single_slice(h, w, self.max_slice_height);
            } else {
                lemma_tall_composite_partition(h, w, self.max_slice_height);
            }
        }
    }

    /// Stack decoded `rasters` (in source order) into the resident composite
    /// and slice it by the maximum slice height. On failure the session is
    /// left as it was.
    pub fn load_rasters(&mut self, rasters: &Vec<Raster>) -> (r: Result<ImageData, ProcessError>)
        requires
            old(self).wf(),
            forall|i: int| 0 <= i < rasters@.len() ==> (#[trigger] rasters@[i]).wf(),
        ensures
            final(self).wf(),
            ({
                let dv = views(rasters@);
                &&& r is Ok <==> composable(dv)
                &&& r is Err ==> *final(self) == *old(self)
                &&& r matches Err(e) ==> {
                    ||| (e == ProcessError::EmptySource && dv.len() == 0)
                    ||| (e matches ProcessError::WidthMismatch { index } && first_width_mismatch(dv, index as int))
                    ||| (e == ProcessError::HeightOverflow && dv.len() > 0 && uniform_width(dv))
                }
                &&& r matches Ok(d) ==> {
                    &&& final(self).big_image matches Some(img) && img@ == (
                        dv[0].0,
                        total_height(dv) as u32,
                        stacked(dv),
                    )
                    &&& final(self).image_data.slices@ == max_height_slices(
                        total_height(dv) as u32,
                        dv[0].0,
                        old(self).max_slice_height,
                    )
                    &&& d@ == final(self).image_data@
                    &&& final(self).max_slice_height == old(self).max_slice_height
                    &&& final(self).chapter_path == old(self).chapter_path
                }
            }),
    {
        let composite = match compose(rasters) {
            Err(e) => {
                return Err(e);
            },
            Ok(c) => c,
        };
        self.image_data.total_width = composite.width;
        self.image_data.total_height = composite.height;
        self.big_image = Some(composite);
        self.calculate_slices();
        Ok(self.image_data.duplicate())
    }

    /// Compose `sources` (the encoded source files, in order) into the
    /// resident composite and slice it by the maximum slice height. Every
    /// source is decoded first, and the first one that does not decode is
    /// reported; then the rasters are stacked as `load_rasters` does. On
    /// failure the session is left as it was.
    pub fn load_images(&mut self, sources: &Vec<Vec<u8>>) -> (r: Result<ImageData, ProcessError>)
        requires
            old(self).wf(),
        ensures
            final(self).wf(),
            ({
                let bs = byte_views(sources@);
                let dv = decoded_views(bs);
                &&& r is Ok <==> all_decode(bs) && composable(dv)
                &&& r is Err ==> *final(self) == *old(self)
                &&& !all_decode(bs) ==> (r matches Err(ProcessError::Decode { index })
                    && first_undecodable(bs, index as int))
                &&& all_decode(bs) ==> (r matches Err(e) ==> {
                    ||| (e == ProcessError::EmptySource && bs.len() == 0)
                    ||| (e matches ProcessError::WidthMismatch { index } && first_width_mismatch(dv, index as int))
                    ||| (e == ProcessError::HeightOverflow && bs.len() > 0 && uniform_width(dv))
                })
                &&& r matches Ok(d) ==> {
                    &&& final(self).big_image matches Some(img) && img@ == (
                        dv[0].0,
                        total_height(dv) as u32,
                        stacked(dv),
                    )
                    &&& final(self).image_data.slices@ == max_height_slices(
                        total_height(dv) as u32,
                        dv[0].0,
                        old(self).max_slice_height,
                    )
                    &&& d@ == final(self).image_data@
                    &&& final(self).max_slice_height == old(self).max_slice_height
                    &&& final(self).chapter_path == old(self).chapter_path
                }
            }),
    {
        let rasters = match decode_all(sources) {
            Err(k) => {
                return Err(ProcessError::Decode { index: k });
            },
            Ok(v) => v,
        };
        self.load_rasters(&rasters)
    }

    /// Rebuild the resident composite from cached slice files (`files[i]` is
    /// the file of slice `i`), keeping each cached slice's bounds. `None`, with
    /// the session left as it was, where a file does not decode or the slices
    /// cannot be stacked; the caller then composes afresh.
    pub fn try_load_cached_slices(&mut self, files: &Vec<Vec<u8>>) -> (r: Option<ImageData>)
        requires
            old(self).wf(),
        ensures
            final(self).wf(),
            ({
                let bs = byte_views(files@);
                let dv = decoded_views(bs);
                &&& r is Some <==> all_decode(bs) && composable(dv)
                &&& r is None ==> *final(self) == *old(self)
                &&& r matches Some(d) ==> {
                    &&& final(self).big_image matches Some(img) && img@ == (
                        dv[0].0,
                        total_height(dv) as u32,
                        stacked(dv),
                    )
                    &&& final(self).image_data@ == (
                        dv[0].0,
                        total_height(dv) as u32,
                        cumulative_slices(dv),
                    )
                    &&& d@ == final(self).image_data@
                    &&& final(self).max_slice_height == old(self).max_slice_height
                    &&& final(self).chapter_path == old(self).chapter_path
                }
            }),
    {
        let rasters = match decode_all(files) {
            Err(_) => {
                return None;
            },
            Ok(v) => v,
        };
        match assemble_cached(&rasters) {
            None => None,
            Some((composite, slices)) => {
                self.image_data = ImageData {
                    total_width: composite.width,
                    total_height: composite.height,
                    slices,
                };
                self.big_image = Some(composite);
                Some(self.image_data.duplicate())
            },
        }
    }
}

/// Whether a composite of `width` by `height` is too large to hand over whole.
pub fn needs_slicing(width: u32, height: u32) -> (r: bool)
    ensures
        r == (width > TRANSFER_LIMIT || height > TRANSFER_LIMIT),
{
    width > TRANSFER_LIMIT || height > TRANSFER_LIMIT
}

/// Progress, in percent, after `done` of `total` sources were decoded: the
/// decoding phase spans `[0, 48]`; the value grows with `done`.
pub fn compose_progress(done: usize, total: usize) -> (r: u32)
    requires
        0 < total,
        done <= total,
    ensures
        r == 48 * (done as int) / (total as int),
        r <= 48,
{
    assert(48 * (done as int) / (total as int) <= 48) by (nonlinear_arith)
        requires
            0 < total,
            done <= total,
    ;
    (48 * (done as u128) / (total as u128)) as u32
}

/// Progress never goes back while sources are decoded in order, and stays
/// below the value reported once the composite is built.
pub proof fn lemma_progress_monotone(earlier: usize, later: usize, total: usize)
    requires
        0 < total,
        earlier <= later <= total,
    ensures
        48 * (earlier as int) / (total as int) <= 48 * (later as int) / (total as int),
        48 * (later as int) / (total as int) < COMPOSED_PROGRESS,
{
    assert(48 * (earlier as int) / (total as int) <= 48 * (later as int) / (total as int))
        by (nonlinear_arith)
        requires
            0 < total,
            earlier <= later,
    ;
    assert(48 * (later as int) / (total as int) <= 48) by (nonlinear_arith)
        requires
            0 < total,
            later <= total,
    ;
}

/// Progress, in percent, once the composite is built and sliced.
pub const COMPOSED_PROGRESS: u32 = 50;

impl ImageProcessor {
    /// Encode `[start, end)` of `img` as a file with extension `ext`.
    fn encode_region(img: &Raster, start: u32, end: u32, ext: &str) -> (r: Option<Vec<u8>>)
        requires
            img.wf(),
            start <= end <= img.height,
        ensures
            r is None <==> region_file(ext@, img@, start, end) is None,
            r matches Some(b) ==> region_file(ext@, img@, start, end) == Some(b@),
    {
        let band = img.band(start, end);
        proof {
            let (w, s, e) = (img.width as int, start as int, end as int);
            assert(e * w * 4 - s * w * 4 == w * (e - s) * 4) by (nonlinear_arith);
            assert(0 <= s * w * 4 <= e * w * 4 <= w * img.height * 4) by (nonlinear_arith)
                requires
                    0 <= s <= e <= img.height,
                    w >= 0,
            ;
        }
        encode_as(ext, img.width, end - start, band)
    }

    /// The PNG file of slice `slice_index`. Fails with `NotLoaded` when no
    /// composite is resident, with `InvalidIndex` when there is no such slice
    /// (touching nothing), and with `Encode` when the encoder refuses it.
    pub fn get_slice_as_bytes(&self, slice_index: usize) -> (r: Result<Vec<u8>, ProcessError>)
        requires
            self.wf(),
        ensures
            self.big_image is None ==> r == Err::<Vec<u8>, ProcessError>(ProcessError::NotLoaded),
            self.big_image matches Some(img) ==> {
                let s = self.image_data.slices@;
                &&& slice_index >= s.len() ==> r == Err::<Vec<u8>, ProcessError>(
                    ProcessError::InvalidIndex { index: slice_index },
                )
                &&& slice_index < s.len() ==> match slice_png(img@, s[slice_index as int]) {
                    None => r == Err::<Vec<u8>, ProcessError>(
                        ProcessError::Encode { index: slice_index },
                    ),
                    Some(b) => r matches Ok(v) && v@ == b,
                }
            },
    {
        let img = match &self.big_image {
            None => {
                return Err(ProcessError::NotLoaded);
            },
            Some(img) => img,
        };
        if slice_index >= self.image_data.slices.len() {
            return Err(ProcessError::InvalidIndex { index: slice_index });
        }
        let slice = self.image_data.slices[slice_index];
        proof {
            reveal_strlit("png");
            assert("png"@ == png_ext());
        }
        match Self::encode_region(img, slice.start_y, slice.end_y, "png") {
            None => Err(ProcessError::Encode { index: slice_index }),
            Some(b) => Ok(b),
        }
    }

    /// The base64 text of the PNG file of slice `slice_index`; fails as
    /// `get_slice_as_bytes` does.
    pub fn get_slice_as_base64(&self, slice_index: usize) -> (r: Result<String, ProcessError>)
        requires
            self.wf(),
        ensures
            self.big_image is None ==> r == Err::<String, ProcessError>(ProcessError::NotLoaded),
            self.big_image matches Some(img) ==> {
                let s = self.image_data.slices@;
                &&& slice_index >= s.len() ==> r == Err::<String, ProcessError>(
                    ProcessError::InvalidIndex { index: slice_index },
                )
                &&& slice_index < s.len() ==> match slice_png(img@, s[slice_index as int]) {
                    None => r == Err::<String, ProcessError>(
                        ProcessError::Encode { index: slice_index },
                    ),
                    Some(b) => 4 * ((b.len() + 2) / 3) <= usize::MAX ==> (r matches Ok(t) && t@
                        == base64_of(b)),
                }
            },
    {
        let bytes = match self.get_slice_as_bytes(slice_index) {
            Err(e) => {
                return Err(e);
            },
            Ok(b) => b,
        };
        let n: usize = bytes.len();
        if 4 * ((n as u128 + 2) / 3) > usize::MAX as u128 {
            return Err(ProcessError::Encode { index: slice_index });
        }
        Ok(to_base64(bytes.as_slice()))
    }

    /// The whole composite as one PNG file: only where it fits the transfer
    /// limit in both dimensions and forms a single slice.
    pub fn get_full_bytes(&self) -> (r: Result<Vec<u8>, ProcessError>)
        requires
            self.wf(),
        ensures
            self.big_image is None ==> r == Err::<Vec<u8>, ProcessError>(ProcessError::NotLoaded),
            self.big_image matches Some(img) ==> {
                let d = self.image_data;
                &&& (d.total_width > TRANSFER_LIMIT || d.total_height > TRANSFER_LIMIT) ==> r
                    == Err::<Vec<u8>, ProcessError>(ProcessError::TooLargeForTransfer)
                &&& (d.total_width <= TRANSFER_LIMIT && d.total_height <= TRANSFER_LIMIT
                    && d.slices@.len() != 1) ==> r == Err::<Vec<u8>, ProcessError>(
                    ProcessError::Sliced,
                )
                &&& (d.total_width <= TRANSFER_LIMIT && d.total_height <= TRANSFER_LIMIT
                    && d.slices@.len() == 1) ==> match slice_png(img@, d.slices@[0]) {
                    None => r == Err::<Vec<u8>, ProcessError>(ProcessError::Encode { index: 0 }),
                    Some(b) => r matches Ok(v) && v@ == b,
                }
            },
    {
        if self.big_image.is_none() {
            return Err(ProcessError::NotLoaded);
        }
        if needs_slicing(self.image_data.total_width, self.image_data.total_height) {
            return Err(ProcessError::TooLargeForTransfer);
        }
        if self.image_data.slices.len() != 1 {
            return Err(ProcessError::Sliced);
        }
        self.get_slice_as_bytes(0)
    }

    /// The PNG file of every slice, in slice order, for the slice cache
    /// (slice `i` is stored as file `i + 1`). Fails with `NotLoaded` when no
    /// composite is resident and with `Encode` at the first slice the encoder
    /// refuses.
    pub fn encode_slices(&self) -> (r: Result<Vec<Vec<u8>>, ProcessError>)
        requires
            self.wf(),
        ensures
            self.big_image is None ==> r == Err::<Vec<Vec<u8>>, ProcessError>(
                ProcessError::NotLoaded,
            ),
            self.big_image matches Some(img) ==> {
                let s = self.image_data.slices@;
                &&& r is Ok <==> forall|i: int| 0 <= i < s.len() ==> slice_png(img@, #[trigger] s[i]) is Some
                &&& r matches Ok(v) ==> v@.len() == s.len() && forall|i: int|
                    0 <= i < s.len() ==> slice_png(img@, #[trigger] s[i]) == Some(v@[i]@)
                &&& r matches Err(e) ==> e matches ProcessError::Encode { index } && index < s.len()
                    && slice_png(img@, s[index as int]) is None
            },
    {
        let img = match &self.big_image {
            None => {
                return Err(ProcessError::NotLoaded);
            },
            Some(img) => img,
        };
        let ghost s = self.image_data.slices@;
        proof {
            reveal_strlit("png");
            assert("png"@ == png_ext());
        }
        let mut out: Vec<Vec<u8>> = Vec::new();
        let mut i: usize = 0;
        while i < self.image_data.slices.len()
            invariant
                self.big_image matches Some(x) && x == *img,
                img.wf(),
                covers(s, img.width, img.height),
                s == self.image_data.slices@,
                "png"@ == png_ext(),
                i <= s.len(),
                out@.len() == i,
                forall|j: int| 0 <= j < i ==> slice_png(img@, #[trigger] s[j]) == Some(out@[j]@),
            decreases s.len() - i,
        {
            let slice = self.image_data.slices[i];
            match Self::encode_region(img, slice.start_y, slice.end_y, "png") {
                None => {
                    return Err(ProcessError::Encode { index: i });
                },
                Some(b) => {
                    out.push(b);
                },
            }
            i = i + 1;
        }
        Ok(out)
    }

    /// The files of the regions that cutting the composite at `separators`
    /// gives (see `separator_regions`), in the format that `extension` names,
    /// in order (region `i` is exported as file `i + 1`). Fails with
    /// `NotLoaded` when no composite is resident and with `Encode` at the
    /// first region the encoder refuses.
    pub fn export_slices(&self, separators: &[u32], extension: &str) -> (r: Result<
        Vec<Vec<u8>>,
        ProcessError,
    >)
        requires
            self.wf(),
        ensures
            self.big_image is None ==> r == Err::<Vec<Vec<u8>>, ProcessError>(
                ProcessError::NotLoaded,
            ),
            self.big_image matches Some(img) ==> {
                let g = separator_regions(separators@, img.height);
                &&& r is Ok <==> forall|i: int|
                    0 <= i < g.len() ==> region_file(extension@, img@, (#[trigger] g[i]).0, g[i].1) is Some
                &&& r matches Ok(v) ==> v@.len() == g.len() && forall|i: int|
                    0 <= i < g.len() ==> region_file(extension@, img@, (#[trigger] g[i]).0, g[i].1)
                        == Some(v@[i]@)
                &&& r matches Err(e) ==> e matches ProcessError::Encode { index } && index < g.len()
                    && region_file(extension@, img@, g[index as int].0, g[index as int].1) is None
            },
    {
        let img = match &self.big_image {
            None => {
                return Err(ProcessError::NotLoaded);
            },
            Some(img) => img,
        };
        let regions = partition_by_separators(separators, img.height);
        let ghost g = regions@;
        proof {
            crate::partition::lemma_separator_regions_tile(separators@, img.height);
        }
        let mut out: Vec<Vec<u8>> = Vec::new();
        let mut i: usize = 0;
        while i < regions.len()
            invariant
                self.big_image matches Some(x) && x == *img,
                img.wf(),
                g == regions@,
                g == separator_regions(separators@, img.height),
                crate::partition::tiles(g, 0, img.height),
                i <= g.len(),
                out@.len() == i,
                forall|j: int|
                    0 <= j < i ==> region_file(extension@, img@, (#[trigger] g[j]).0, g[j].1) == Some(
                        out@[j]@,
                    ),
            decreases g.len() - i,
        {
            let (start, end) = regions[i];
            match Self::encode_region(img, start, end, extension) {
                None => {
                    return Err(ProcessError::Encode { index: i });
                },
                Some(b) => {
                    out.push(b);
                },
            }
            i = i + 1;
        }
        Ok(out)
    }
}

} // verus!
