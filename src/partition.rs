//! Height partitioning of a composite: by a maximum slice height, and at
//! caller-supplied separators.

use vstd::prelude::*;

verus! {

/// One horizontal band `[start_y, end_y)` of the composite, 0-based `index`.
#[derive(Debug, Clone, Copy, PartialEq, Eq, Structural)]
pub struct ImageSlice {
    pub index: usize,
    pub start_y: u32,
    pub end_y: u32,
    pub width: u32,
    pub height: u32,
}

/// Number of slices for a composite of height `h` and a maximum of `m`:
/// one when `h < m`, otherwise `ceil(h / m)`.
pub open spec fn slice_count(h: int, m: int) -> int {
    if h < m {
        1
    } else {
        (h + m - 1) / m
    }
}

/// Slice `i` of the max-height partition: every slice is `h / n` rows tall
/// except the last, which ends at `h`.
pub open spec fn max_height_slice(h: int, m: int, w: u32, i: int) -> ImageSlice {
    let n = slice_count(h, m);
    let base = h / n;
    let start = i * base;
    let end = if i == n - 1 { h } else { (i + 1) * base };
    ImageSlice {
        index: i as usize,
        start_y: start as u32,
        end_y: end as u32,
        width: w,
        height: (end - start) as u32,
    }
}

pub open spec fn max_height_slices(h: u32, w: u32, m: u32) -> Seq<ImageSlice> {
    Seq::new(slice_count(h as int, m as int) as nat, |i: int| max_height_slice(h as int, m as int, w, i))
}

/// `s` lists bands of width `w`, indexed by position, contiguous, starting at
/// row 0 and ending at row `h`.
pub open spec fn covers(s: Seq<ImageSlice>, w: u32, h: u32) -> bool {
    &&& s.len() > 0
    &&& s[0].start_y == 0
    &&& s.last().end_y == h
    &&& forall|i: int|
        0 <= i < s.len() ==> {
            &&& (#[trigger] s[i]).index == i
            &&& s[i].width == w
            &&& s[i].start_y <= s[i].end_y <= h
            &&& s[i].height == s[i].end_y - s[i].start_y
        }
    &&& forall|i: int| 0 <= i < s.len() - 1 ==> (#[trigger] s[i]).end_y == s[i + 1].start_y
}

proof fn lemma_count_bounds(h: int, m: int)
    requires
        1 <= m <= h,
    ensures
        1 <= slice_count(h, m) <= h,
        (slice_count(h, m) - 1) * m < h,
        h <= slice_count(h, m) * m,
{
    let n = (h + m - 1) / m;
    assert(n * m <= h + m - 1 && h + m - 1 < n * m + m) by (nonlinear_arith)
        requires
            n == (h + m - 1) / m,
            m >= 1,
            h >= 0,
    ;
    assert(n <= h) by (nonlinear_arith)
        requires
            n * m <= h + m - 1,
            m >= 1,
            h >= 1,
    ;
    assert(n >= 1) by (nonlinear_arith)
        requires
            h + m - 1 < n * m + m,
            m <= h,
            m >= 1,
    ;
    assert((n - 1) * m < h) by (nonlinear_arith)
        requires
            n * m <= h + m - 1,
    ;
}

proof fn lemma_base_bounds(h: int, n: int, i: int)
    requires
        1 <= n <= h,
        0 <= i < n,
    ensures
        1 <= h / n,
        0 <= i * (h / n),
        (i + 1) * (h / n) <= n * (h / n) <= h,
        i * (h / n) + h / n == (i + 1) * (h / n),
        h - (n - 1) * (h / n) >= h / n,
{
    let b = h / n;
    assert(b * n <= h && h < b * n + n) by (nonlinear_arith)
        requires
            b == h / n,
            n >= 1,
            h >= 0,
    ;
    assert(b >= 1) by (nonlinear_arith)
        requires
            h < b * n + n,
            n <= h,
            n >= 1,
    ;
    assert(0 <= i * b && (i + 1) * b <= n * b && i * b + b == (i + 1) * b) by (nonlinear_arith)
        requires
            0 <= i < n,
            b >= 1,
    ;
    assert(h - (n - 1) * b >= b) by (nonlinear_arith)
        requires
            b * n <= h,
    ;
}

/// Partition a composite of height `height` and width `width` into slices no
/// taller than roughly `max_height`.
pub fn partition_by_max_height(height: u32, width: u32, max_height: u32) -> (r: Vec<ImageSlice>)
    requires
        max_height > 0,
    ensures
        r@ == max_height_slices(height, width, max_height),
{
    if height < max_height {
        let s = ImageSlice { index: 0, start_y: 0, end_y: height, width, height };
        let r = vec![s];
        assert(height as int / 1 == height as int);
        assert(0 * (height as int) == 0);
        assert(max_height_slice(height as int, max_height as int, width, 0) == s);
        assert(r@ =~= max_height_slices(height, width, max_height));
        return r;
    }
    let n64: u64 = (height as u64 + max_height as u64 - 1) / max_height as u64;
    proof {
        lemma_count_bounds(height as int, max_height as int);
    }
    let n: u32 = n64 as u32;
    let base: u32 = height / n;
    let mut r: Vec<ImageSlice> = Vec::new();
    let mut i: u32 = 0;
    while i < n
        invariant
            n as int == slice_count(height as int, max_height as int),
            1 <= n <= height,
            base == height / n,
            i <= n,
            r@ =~= max_height_slices(height, width, max_height).subrange(0, i as int),
        decreases n - i,
    {
        proof {
            lemma_base_bounds(height as int, n as int, i as int);
        }
        let start_y: u32 = i * base;
        let end_y: u32 = if i == n - 1 {
            height
        } else {
            (i + 1) * base
        };
        r.push(ImageSlice { index: i as usize, start_y, end_y, width, height: end_y - start_y });
        i = i + 1;
    }
    r
}

/// A composite shorter than the maximum height yields exactly one slice,
/// spanning `[0, height)`.
pub proof fn lemma_short_composite_single_slice(height: u32, width: u32, max_height: u32)
    requires
        height < max_height,
    ensures
        max_height_slices(height, width, max_height) == seq![
            ImageSlice { index: 0, start_y: 0, end_y: height, width, height },
        ],
{
    assert(height as int / 1 == height as int);
    assert(0 * (height as int) == 0);
    assert(max_height_slices(height, width, max_height) =~= seq![
        ImageSlice { index: 0, start_y: 0, end_y: height, width, height },
    ]);
}

/// A composite at least as tall as the maximum height yields `ceil(h / m)`
/// non-empty slices, contiguous and covering `[0, h)` exactly, all of one
/// height except possibly the last.
pub proof fn lemma_tall_composite_partition(height: u32, width: u32, max_height: u32)
    requires
        max_height > 0,
        height >= max_height,
    ensures
        ({
            let s = max_height_slices(height, width, max_height);
            &&& s.len() == (height + max_height - 1) / (max_height as int)
            &&& covers(s, width, height)
            &&& forall|i: int| 0 <= i < s.len() ==> (#[trigger] s[i]).height > 0
            &&& forall|i: int| 0 <= i < s.len() - 1 ==> (#[trigger] s[i]).height == s[0].height
        }),
{
    let h = height as int;
    let m = max_height as int;
    let s = max_height_slices(height, width, max_height);
    lemma_count_bounds(h, m);
    let n = slice_count(h, m);
    assert forall|i: int| 0 <= i < s.len() implies {
        &&& (#[trigger] s[i]).index == i
        &&& s[i].width == width
        &&& s[i].start_y < s[i].end_y <= h
        &&& s[i].height == s[i].end_y - s[i].start_y
        &&& s[i].start_y == i * (h / n)
        &&& i < s.len() - 1 ==> s[i].height == h / n
    } by {
        lemma_base_bounds(h, n, i);
    }
    assert(0 * (h / n) == 0);
    assert forall|i: int| 0 <= i < s.len() - 1 implies (#[trigger] s[i]).end_y == s[i + 1].start_y by {
        lemma_base_bounds(h, n, i);
        lemma_base_bounds(h, n, i + 1);
    }
}

/// The regions cut at `seps`, starting from row `prev`, of a composite `h`
/// rows tall: each separator is clamped to `h`; a cut that does not move
/// past the previous one opens no region; what is left after the last
/// separator forms one final region.
pub open spec fn regions_from(seps: Seq<u32>, prev: u32, h: u32) -> Seq<(u32, u32)>
    decreases seps.len(),
{
    if seps.len() == 0 {
        if prev < h {
            seq![(prev, h)]
        } else {
            seq![]
        }
    } else {
        let e = if seps[0] < h {
            seps[0]
        } else {
            h
        };
        if e > prev {
            seq![(prev, e)] + regions_from(seps.drop_first(), e, h)
        } else {
            regions_from(seps.drop_first(), prev, h)
        }
    }
}

pub open spec fn separator_regions(seps: Seq<u32>, h: u32) -> Seq<(u32, u32)> {
    regions_from(seps, 0, h)
}

/// `r` is a list of non-empty regions, each starting where the previous one
/// ended, from `lo` to `hi`.
pub open spec fn tiles(r: Seq<(u32, u32)>, lo: u32, hi: u32) -> bool {
    &&& (r.len() == 0 <==> lo == hi)
    &&& r.len() > 0 ==> r[0].0 == lo && r.last().1 == hi
    &&& forall|i: int| 0 <= i < r.len() ==> (#[trigger] r[i]).0 < r[i].1 <= hi
    &&& forall|i: int| 0 <= i < r.len() - 1 ==> (#[trigger] r[i]).1 == r[i + 1].0
}

proof fn lemma_regions_from_tile(seps: Seq<u32>, prev: u32, h: u32)
    requires
        prev <= h,
    ensures
        tiles(regions_from(seps, prev, h), prev, h),
    decreases seps.len(),
{
    if seps.len() > 0 {
        let e = if seps[0] < h {
            seps[0]
        } else {
            h
        };
        if e > prev {
            lemma_regions_from_tile(seps.drop_first(), e, h);
            let rest = regions_from(seps.drop_first(), e, h);
            let r = seq![(prev, e)] + rest;
            assert forall|i: int| 0 <= i < r.len() - 1 implies (#[trigger] r[i]).1 == r[i + 1].0 by {
                if i > 0 {
                    assert(r[i] == rest[i - 1]);
                }
            }
            assert forall|i: int| 0 <= i < r.len() implies (#[trigger] r[i]).0 < r[i].1 <= h by {
                if i > 0 {
                    assert(r[i] == rest[i - 1]);
                }
            }
        } else {
            lemma_regions_from_tile(seps.drop_first(), prev, h);
        }
    }
}

/// Cutting at separators, whatever their values and order, yields non-empty
/// regions that never reach past the composite's height and that tile
/// `[0, height)` exactly.
pub proof fn lemma_separator_regions_tile(seps: Seq<u32>, height: u32)
    ensures
        tiles(separator_regions(seps, height), 0, height),
{
    lemma_regions_from_tile(seps, 0, height);
}

/// Cut `[0, height)` at `separators` (see `separator_regions`).
pub fn partition_by_separators(separators: &[u32], height: u32) -> (r: Vec<(u32, u32)>)
    ensures
        r@ == separator_regions(separators@, height),
{
    let mut r: Vec<(u32, u32)> = Vec::new();
    let mut prev: u32 = 0;
    let mut k: usize = 0;
    assert(separators@.subrange(0, separators@.len() as int) =~= separators@);
    assert(r@ + separator_regions(separators@, height) =~= separator_regions(separators@, height));
    while k < separators.len()
        invariant
            k <= separators@.len(),
            prev <= height,
            r@ + regions_from(separators@.subrange(k as int, separators@.len() as int), prev, height)
                == separator_regions(separators@, height),
        decreases separators@.len() - k,
    {
        let ghost rest = separators@.subrange(k as int, separators@.len() as int);
        assert(rest.drop_first() =~= separators@.subrange(k + 1, separators@.len() as int));
        let sep = separators[k];
        let e: u32 = if sep < height {
            sep
        } else {
            height
        };
        if e > prev {
            assert(r@ + regions_from(rest, prev, height) =~= r@.push((prev, e)) + regions_from(
                rest.drop_first(),
                e,
                height,
            ));
            r.push((prev, e));
            prev = e;
        }
        k = k + 1;
    }
    assert(separators@.subrange(k as int, separators@.len() as int).len() == 0);
    if prev < height {
        assert(r@ + regions_from(seq![], prev, height) =~= r@.push((prev, height)));
        r.push((prev, height));
    } else {
        assert(r@ + regions_from(seq![], prev, height) =~= r@);
    }
    r
}

} // verus!
