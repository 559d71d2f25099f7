//! Decoded RGBA8 rasters and their vertical stacking.

use vstd::prelude::*;

use crate::error::ProcessError;

verus! {

/// A raster as plain values: width, height and row-major RGBA8 bytes.
pub type RasterView = (u32, u32, Seq<u8>);

/// A decoded raster: `pixels` holds `height` rows of `width` RGBA8 pixels.
#[derive(Debug)]
pub struct Raster {
    pub width: u32,
    pub height: u32,
    pub pixels: Vec<u8>,
}

impl View for Raster {
    type V = RasterView;

    open spec fn view(&self) -> RasterView {
        (self.width, self.height, self.pixels@)
    }
}

pub open spec fn well_formed(v: RasterView) -> bool {
    v.2.len() == v.0 * v.1 * 4
}

impl Raster {
    pub open spec fn wf(&self) -> bool {
        well_formed(self@)
    }
}

pub open spec fn views(rs: Seq<Raster>) -> Seq<RasterView> {
    rs.map_values(|r: Raster| r@)
}

/// Bytes of rows `[start, end)` of a raster `width` pixels wide.
pub open spec fn band_of(pixels: Seq<u8>, width: u32, start: int, end: int) -> Seq<u8> {
    pixels.subrange(start * width * 4, end * width * 4)
}

/// Sum of the heights.
pub open spec fn total_height(s: Seq<RasterView>) -> int
    decreases s.len(),
{
    if s.len() == 0 {
        0
    } else {
        total_height(s.drop_last()) + s.last().1
    }
}

/// The rasters' bytes one after the other: for rasters of one width, the
/// image of the rasters stacked top to bottom.
pub open spec fn stacked(s: Seq<RasterView>) -> Seq<u8>
    decreases s.len(),
{
    if s.len() == 0 {
        seq![]
    } else {
        stacked(s.drop_last()) + s.last().2
    }
}

pub open spec fn uniform_width(s: Seq<RasterView>) -> bool {
    forall|i: int| 0 <= i < s.len() ==> (#[trigger] s[i]).0 == s[0].0
}

/// `k` is the first position whose width differs from the first raster's.
pub open spec fn first_width_mismatch(s: Seq<RasterView>, k: int) -> bool {
    &&& 0 < k < s.len()
    &&& s[k].0 != s[0].0
    &&& forall|j: int| 0 <= j < k ==> (#[trigger] s[j]).0 == s[0].0
}

/// `s` can be stacked: it is not empty, of one width, and its total height
/// fits in 32 bits.
pub open spec fn composable(s: Seq<RasterView>) -> bool {
    s.len() > 0 && uniform_width(s) && total_height(s) <= u32::MAX
}

pub proof fn lemma_stacked_len(s: Seq<RasterView>, w: u32)
    requires
        forall|i: int| 0 <= i < s.len() ==> well_formed(#[trigger] s[i]) && s[i].0 == w,
    ensures
        stacked(s).len() == w * total_height(s) * 4,
        total_height(s) >= 0,
    decreases s.len(),
{
    if s.len() > 0 {
        let p = s.drop_last();
        assert forall|i: int| 0 <= i < p.len() implies well_formed(#[trigger] p[i]) && p[i].0 == w by {
            assert(p[i] == s[i]);
        }
        lemma_stacked_len(p, w);
        let a = total_height(p);
        let b = s.last().1 as int;
        assert(well_formed(s[s.len() - 1]));
        assert(w * (a + b) * 4 == w * a * 4 + w * b * 4) by (nonlinear_arith);
    }
}

proof fn lemma_prefix_step(s: Seq<RasterView>, i: int)
    requires
        0 <= i < s.len(),
    ensures
        total_height(s.subrange(0, i + 1)) == total_height(s.subrange(0, i)) + s[i].1,
        stacked(s.subrange(0, i + 1)) == stacked(s.subrange(0, i)) + s[i].2,
{
    assert(s.subrange(0, i + 1).drop_last() =~= s.subrange(0, i));
}

pub proof fn lemma_total_height_monotone(s: Seq<RasterView>, i: int)
    requires
        0 <= i <= s.len(),
    ensures
        0 <= total_height(s.subrange(0, i)) <= total_height(s),
    decreases s.len() - i,
{
    if i < s.len() {
        lemma_prefix_step(s, i);
        lemma_total_height_nonneg(s.subrange(0, i));
        lemma_total_height_monotone(s, i + 1);
    } else {
        assert(s.subrange(0, i) =~= s);
        lemma_total_height_nonneg(s);
    }
}

proof fn lemma_total_height_nonneg(s: Seq<RasterView>)
    ensures
        total_height(s) >= 0,
    decreases s.len(),
{
    if s.len() > 0 {
        lemma_total_height_nonneg(s.drop_last());
    }
}

impl Raster {
    /// A copy of the bytes of rows `[start, end)`.
    pub fn band(&self, start: u32, end: u32) -> (r: Vec<u8>)
        requires
            self.wf(),
            start <= end <= self.height,
        ensures
            r@ == band_of(self.pixels@, self.width, start as int, end as int),
    {
        let mut out: Vec<u8> = Vec::new();
        let len: usize = self.pixels.len();
        proof {
            let (w, h) = (self.width as int, self.height as int);
            assert(0 <= start * w * 4 <= w * h * 4) by (nonlinear_arith)
                requires
                    0 <= start <= h,
                    w >= 0,
            ;
        }
        if start == end {
            assert(out@ =~= band_of(self.pixels@, self.width, start as int, end as int));
            return out;
        }
        let ghost w = self.width as int;
        let ghost h = self.height as int;
        proof {
            assert(w * 4 <= w * h * 4 && start * w * 4 <= end * w * 4 && end * w * 4 <= w * h * 4)
                by (nonlinear_arith)
                requires
                    0 <= start < end <= h,
                    w >= 0,
            ;
        }
        assert(w * 4 <= len);
        let stride: usize = self.width as usize * 4;
        assert(end * stride == end * w * 4) by (nonlinear_arith)
            requires
                stride == w * 4,
        ;
        assert(start * stride == start * w * 4) by (nonlinear_arith)
            requires
                stride == w * 4,
        ;
        assert(start * stride <= len && end * stride <= len);
        let lo: usize = start as usize * stride;
        let hi: usize = end as usize * stride;
        let mut i: usize = lo;
        while i < hi
            invariant
                lo <= i <= hi,
                hi <= self.pixels@.len(),
                out@ =~= self.pixels@.subrange(lo as int, i as int),
            decreases hi - i,
        {
            out.push(self.pixels[i]);
            i = i + 1;
        }
        out
    }
}

/// Stack `sources` top to bottom into one raster. Fails on an empty list, on
/// the first source whose width differs from the first one's, and where the
/// total height does not fit in 32 bits; sources are never scaled or padded.
pub fn compose(sources: &Vec<Raster>) -> (r: Result<Raster, ProcessError>)
    requires
        forall|i: int| 0 <= i < sources@.len() ==> (#[trigger] sources@[i]).wf(),
    ensures
        r is Ok <==> composable(views(sources@)),
        r matches Ok(c) ==> {
            &&& c.wf()
            &&& c.width == sources@[0].width
            &&& c.height == total_height(views(sources@))
            &&& c.pixels@ == stacked(views(sources@))
        },
        r == Err::<Raster, ProcessError>(ProcessError::EmptySource) <==> sources@.len() == 0,
        r matches Err(ProcessError::WidthMismatch { index }) ==> first_width_mismatch(
            views(sources@),
            index as int,
        ),
        r is Err && sources@.len() > 0 && uniform_width(views(sources@)) ==> r
            == Err::<Raster, ProcessError>(ProcessError::HeightOverflow),
        r == Err::<Raster, ProcessError>(ProcessError::HeightOverflow) ==> sources@.len() > 0
            && uniform_width(views(sources@)),
        r matches Err(e) ==> e is EmptySource || e is WidthMismatch || e is HeightOverflow,
{
    let ghost s = views(sources@);
    if sources.len() == 0 {
        return Err(ProcessError::EmptySource);
    }
    let width: u32 = sources[0].width;
    let mut k: usize = 1;
    while k < sources.len()
        invariant
            s == views(sources@),
            width == s[0].0,
            1 <= k <= s.len(),
            forall|j: int| 0 <= j < k ==> (#[trigger] s[j]).0 == width,
        decreases s.len() - k,
    {
        if sources[k].width != width {
            assert(s[k as int].0 != s[0].0);
            return Err(ProcessError::WidthMismatch { index: k });
        }
        k = k + 1;
    }
    let mut total: u32 = 0;
    let mut pixels: Vec<u8> = Vec::new();
    let mut i: usize = 0;
    assert(s.subrange(0, 0) =~= Seq::<RasterView>::empty());
    while i < sources.len()
        invariant
            s == views(sources@),
            forall|j: int| 0 <= j < sources@.len() ==> (#[trigger] sources@[j]).wf(),
            uniform_width(s),
            i <= s.len(),
            total == total_height(s.subrange(0, i as int)),
            pixels@ == stacked(s.subrange(0, i as int)),
        decreases s.len() - i,
    {
        proof {
            lemma_prefix_step(s, i as int);
            lemma_total_height_monotone(s, i as int + 1);
        }
        let h = sources[i].height;
        if h > u32::MAX - total {
            proof {
                lemma_total_height_monotone(s, i as int + 1);
            }
            return Err(ProcessError::HeightOverflow);
        }
        total = total + h;
        let src = &sources[i];
        let mut j: usize = 0;
        let ghost before = pixels@;
        while j < src.pixels.len()
            invariant
                j <= src.pixels@.len(),
                pixels@ == before + src.pixels@.subrange(0, j as int),
            decreases src.pixels@.len() - j,
        {
            pixels.push(src.pixels[j]);
            j = j + 1;
            assert(pixels@ =~= before + src.pixels@.subrange(0, j as int));
        }
        assert(src.pixels@.subrange(0, j as int) =~= src.pixels@);
        i = i + 1;
    }
    assert(s.subrange(0, i as int) =~= s);
    proof {
        lemma_stacked_len(s, width);
    }
    Ok(Raster { width, height: total, pixels })
}

} // verus!
