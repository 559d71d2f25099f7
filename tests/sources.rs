use image_slicer::sources::{cached_slice_count, has_source_extension, select_sources, slice_file_index};

fn strings(v: &[&str]) -> Vec<String> {
    v.iter().map(|s| s.to_string()).collect()
}

#[test]
fn allow_listed_extensions_in_any_case() {
    for n in ["a.png", "b.JPG", "c.jpeg", "d.WebP", "e.bmp", "x.y.PNG"] {
        assert!(has_source_extension(n), "{}", n);
    }
}

#[test]
fn other_names_are_not_sources() {
    for n in ["a.gif", "png", ".png", "a.", "a.pngx", "a.jp", "", "notes.txt"] {
        assert!(!has_source_extension(n), "{}", n);
    }
}

#[test]
fn sources_in_natural_order() {
    let names = strings(&["10.png", "2.png", "notes.txt", "1.jpg", "cover.webp", "11.png"]);
    assert_eq!(select_sources(&names), strings(&["1.jpg", "2.png", "10.png", "11.png", "cover.webp"]));
}

#[test]
fn no_sources_is_empty() {
    assert!(select_sources(&strings(&["a.txt", "b"])).is_empty());
}

#[test]
fn slice_file_names() {
    assert_eq!(slice_file_index("1.png"), Some(1));
    assert_eq!(slice_file_index("42.png"), Some(42));
    assert_eq!(slice_file_index("0.png"), None);
    assert_eq!(slice_file_index("01.png"), None);
    assert_eq!(slice_file_index("1.PNG"), None);
    assert_eq!(slice_file_index("a1.png"), None);
    assert_eq!(slice_file_index(".png"), None);
    assert_eq!(slice_file_index("99999999999999999999999.png"), None);
}

#[test]
fn cache_scan_stops_at_missing_index() {
    assert_eq!(cached_slice_count(&strings(&["1.png", "3.png"])), 1);
}

#[test]
fn cache_scan_counts_contiguous_run() {
    assert_eq!(cached_slice_count(&strings(&["2.png", "x.txt", "1.png", "3.png"])), 3);
    assert_eq!(cached_slice_count(&strings(&["2.png", "3.png"])), 0);
    assert_eq!(cached_slice_count(&strings(&[])), 0);
}
