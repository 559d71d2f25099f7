//! Rebuilding a composite and its slices from cached slice rasters.

use vstd::prelude::*;

use crate::partition::{covers, ImageSlice};
use crate::raster::{
    compose,
    composable,
    lemma_total_height_monotone,
    stacked,
    total_height,
    views,
    Raster,
    RasterView,
};

verus! {

/// The slices that stacking `s` produces: slice `i` spans the rows of `s[i]`.
pub open spec fn cumulative_slices(s: Seq<RasterView>) -> Seq<ImageSlice> {
    Seq::new(
        s.len(),
        |i: int|
            ImageSlice {
                index: i as usize,
                start_y: total_height(s.subrange(0, i)) as u32,
                end_y: total_height(s.subrange(0, i + 1)) as u32,
                width: s[i].0,
                height: s[i].1,
            },
    )
}

proof fn lemma_cumulative_covers(s: Seq<RasterView>)
    requires
        composable(s),
        s.len() <= usize::MAX,
    ensures
        covers(cumulative_slices(s), s[0].0, total_height(s) as u32),
{
    let c = cumulative_slices(s);
    assert forall|i: int| 0 <= i < s.len() implies {
        &&& 0 <= total_height(s.subrange(0, i)) <= total_height(s.subrange(0, i + 1)) <= total_height(s)
        &&& total_height(s.subrange(0, i + 1)) == total_height(s.subrange(0, i)) + s[i].1
    } by {
        assert(s.subrange(0, i + 1).drop_last() =~= s.subrange(0, i));
        lemma_total_height_monotone(s, i);
        lemma_total_height_monotone(s, i + 1);
    }
    assert(s.subrange(0, 0) =~= Seq::<RasterView>::empty());
    assert(s.subrange(0, s.len() as int) =~= s);
}

/// Stack cached slices, in index order, into one composite, keeping each
/// slice's own bounds. `None` where they cannot be stacked (no slice, two
/// widths, or a height beyond 32 bits): the cache is then not to be trusted.
pub fn assemble_cached(slices: &Vec<Raster>) -> (r: Option<(Raster, Vec<ImageSlice>)>)
    requires
        forall|i: int| 0 <= i < slices@.len() ==> (#[trigger] slices@[i]).wf(),
    ensures
        r is Some <==> composable(views(slices@)),
        r matches Some(p) ==> {
            &&& p.0.wf()
            &&& p.0.width == slices@[0].width
            &&& p.0.height == total_height(views(slices@))
            &&& p.0.pixels@ == stacked(views(slices@))
            &&& p.1@ == cumulative_slices(views(slices@))
            &&& covers(p.1@, p.0.width, p.0.height)
        },
{
    let ghost s = views(slices@);
    match compose(slices) {
        Err(_) => None,
        Ok(c) => {
            let mut out: Vec<ImageSlice> = Vec::new();
            let mut start: u32 = 0;
            let mut i: usize = 0;
            assert(s.subrange(0, 0) =~= Seq::<RasterView>::empty());
            while i < slices.len()
                invariant
                    s == views(slices@),
                    composable(s),
                    i <= s.len(),
                    start == total_height(s.subrange(0, i as int)),
                    out@ == cumulative_slices(s).subrange(0, i as int),
                decreases s.len() - i,
            {
                proof {
                    assert(s.subrange(0, i + 1).drop_last() =~= s.subrange(0, i as int));
                    lemma_total_height_monotone(s, i + 1);
                    lemma_total_height_monotone(s, i as int);
                }
                let h = slices[i].height;
                let end: u32 = start + h;
                out.push(ImageSlice { index: i, start_y: start, end_y: end, width: slices[i].width, height: h });
                assert(out@ =~= cumulative_slices(s).subrange(0, i + 1));
                start = end;
                i = i + 1;
            }
            assert(cumulative_slices(s).subrange(0, i as int) =~= cumulative_slices(s));
            proof {
                lemma_cumulative_covers(s);
            }
            Some((c, out))
        },
    }
}

} // verus!
