use image_slicer::partition::{partition_by_max_height, partition_by_separators, ImageSlice};

fn bounds(slices: &[ImageSlice]) -> Vec<(usize, u32, u32, u32)> {
    slices.iter().map(|s| (s.index, s.start_y, s.end_y, s.height)).collect()
}

#[test]
fn short_composite_is_one_slice() {
    let s = partition_by_max_height(5000, 800, 12000);
    assert_eq!(s.len(), 1);
    assert_eq!(bounds(&s), vec![(0, 0, 5000, 5000)]);
    assert_eq!(s[0].width, 800);
}

#[test]
fn empty_composite_is_one_empty_slice() {
    let s = partition_by_max_height(0, 800, 12000);
    assert_eq!(bounds(&s), vec![(0, 0, 0, 0)]);
}

#[test]
fn height_equal_to_maximum_is_one_slice() {
    let s = partition_by_max_height(12000, 10, 12000);
    assert_eq!(bounds(&s), vec![(0, 0, 12000, 12000)]);
}

#[test]
fn tall_composite_splits_into_ceiling_count() {
    let s = partition_by_max_height(25000, 10, 12000);
    assert_eq!(bounds(&s), vec![(0, 0, 8333, 8333), (1, 8333, 16666, 8333), (2, 16666, 25000, 8334)]);
}

#[test]
fn last_slice_takes_the_remainder() {
    let s = partition_by_max_height(10, 3, 4);
    assert_eq!(bounds(&s), vec![(0, 0, 3, 3), (1, 3, 6, 3), (2, 6, 10, 4)]);
}

#[test]
fn exact_multiple_gives_equal_slices() {
    let s = partition_by_max_height(24000, 3, 12000);
    assert_eq!(bounds(&s), vec![(0, 0, 12000, 12000), (1, 12000, 24000, 12000)]);
}

#[test]
fn large_heights_count_exactly() {
    let s = partition_by_max_height(16777217, 1, 16777216);
    assert_eq!(s.len(), 2);
    assert_eq!(s[1].end_y, 16777217);
}

#[test]
fn separators_cut_three_regions() {
    let r = partition_by_separators(&[100, 250], 300);
    assert_eq!(r, vec![(0, 100), (100, 250), (250, 300)]);
}

#[test]
fn separator_beyond_height_is_clamped() {
    let r = partition_by_separators(&[100, 500, 600], 300);
    assert_eq!(r, vec![(0, 100), (100, 300)]);
}

#[test]
fn separator_at_height_leaves_no_tail() {
    let r = partition_by_separators(&[300], 300);
    assert_eq!(r, vec![(0, 300)]);
}

#[test]
fn no_separators_give_whole_composite() {
    assert_eq!(partition_by_separators(&[], 300), vec![(0, 300)]);
    assert_eq!(partition_by_separators(&[], 0), vec![]);
}

#[test]
fn repeated_or_backward_separators_open_no_region() {
    let r = partition_by_separators(&[100, 100, 50, 200], 300);
    assert_eq!(r, vec![(0, 100), (100, 200), (200, 300)]);
}
