use subimg_search::engine::{check_dimensions, search, search_with_workers, SearchError};
use subimg_search::image::{ConfidenceMap, Image};
use subimg_search::merge::{merge, MergePolicy, PartialMap};
use subimg_search::metric::{calc_root_error_squares_mean_full, window_score, Denominator};
use subimg_search::partition::{partition, StripDescriptor};
use subimg_search::worker::scan_strip;

fn solid(width: usize, height: usize, rgb: [u8; 3]) -> Image {
    let mut data = Vec::new();
    for _ in 0..width * height {
        data.extend_from_slice(&rgb);
    }
    Image::from_raw(width, height, data).unwrap()
}

fn put(img: &mut Image, x: usize, y: usize, rgb: [u8; 3]) {
    let i = 3 * (y * img.width + x);
    img.data[i..i + 3].copy_from_slice(&rgb);
}

fn gray(width: usize, height: usize, values: Vec<u8>) -> ConfidenceMap {
    ConfidenceMap { width, height, data: values }
}

fn argmax(map: &ConfidenceMap) -> (usize, usize, u8) {
    let mut best = (0, 0, 0u8);
    for y in 0..map.height {
        for x in 0..map.width {
            let v = map.get(x, y);
            if v > best.2 {
                best = (x, y, v);
            }
        }
    }
    best
}

/// A source with some texture so that windows differ.
fn textured(width: usize, height: usize) -> Image {
    let mut data = Vec::new();
    for y in 0..height {
        for x in 0..width {
            data.push(((x * 37 + y * 11) % 251) as u8);
            data.push(((x * 7 + y * 53) % 241) as u8);
            data.push(((x * y + 5) % 239) as u8);
        }
    }
    Image::from_raw(width, height, data).unwrap()
}

fn copy_region(src: &Image, x0: usize, y0: usize, w: usize, h: usize) -> Image {
    let mut data = Vec::new();
    for y in 0..h {
        for x in 0..w {
            let i = 3 * ((y0 + y) * src.width + x0 + x);
            data.extend_from_slice(&src.data[i..i + 3]);
        }
    }
    Image::from_raw(w, h, data).unwrap()
}

#[test]
fn from_raw_checks_length() {
    assert!(Image::from_raw(2, 2, vec![0u8; 12]).is_some());
    assert!(Image::from_raw(2, 2, vec![0u8; 11]).is_none());
    assert!(Image::from_raw(usize::MAX, 3, vec![]).is_none());
}

#[test]
fn metric_single_pixel_value() {
    let t = solid(1, 1, [10, 20, 30]);
    let s = solid(1, 1, [13, 24, 30]);
    // (9 + 16 + 0) / 3 = 8, whose floor square root is 2.
    assert_eq!(calc_root_error_squares_mean_full(&t, &s, 0, 0, Denominator::ComparedPixels), 2);
    assert_eq!(window_score(&t, &s, 0, 0, Denominator::ComparedPixels), 253);
}

#[test]
fn metric_perfect_match_is_zero() {
    let s = textured(8, 6);
    let t = copy_region(&s, 3, 2, 4, 3);
    assert_eq!(calc_root_error_squares_mean_full(&t, &s, 3, 2, Denominator::ComparedPixels), 0);
    assert_eq!(window_score(&t, &s, 3, 2, Denominator::TemplateWidth), 255);
    assert_ne!(calc_root_error_squares_mean_full(&t, &s, 2, 2, Denominator::ComparedPixels), 0);
}

#[test]
fn metric_skips_black_template_pixels() {
    let mut t = solid(2, 1, [0, 0, 0]);
    put(&mut t, 1, 0, [100, 0, 0]);
    let mut s = solid(2, 1, [255, 255, 255]);
    put(&mut s, 1, 0, [100, 0, 0]);
    assert_eq!(calc_root_error_squares_mean_full(&t, &s, 0, 0, Denominator::ComparedPixels), 0);
    put(&mut s, 0, 0, [1, 2, 3]);
    assert_eq!(calc_root_error_squares_mean_full(&t, &s, 0, 0, Denominator::ComparedPixels), 0);
}

#[test]
fn metric_black_exclusion_depends_on_one_pixel() {
    let mut t = solid(3, 3, [0, 0, 0]);
    put(&mut t, 1, 1, [255, 0, 0]);
    let a = textured(3, 3);
    let mut b = solid(3, 3, [9, 9, 9]);
    put(&mut b, 1, 1, [a.data[12], a.data[13], a.data[14]]);
    let ra = calc_root_error_squares_mean_full(&t, &a, 0, 0, Denominator::ComparedPixels);
    let rb = calc_root_error_squares_mean_full(&t, &b, 0, 0, Denominator::ComparedPixels);
    assert_eq!(ra, rb);
}

#[test]
fn metric_all_black_template_is_worst() {
    let t = solid(2, 2, [0, 0, 0]);
    let s = solid(2, 2, [50, 50, 50]);
    assert_eq!(calc_root_error_squares_mean_full(&t, &s, 0, 0, Denominator::ComparedPixels), 255);
    assert_eq!(window_score(&t, &s, 0, 0, Denominator::ComparedPixels), 0);
    assert_eq!(calc_root_error_squares_mean_full(&t, &s, 0, 0, Denominator::TemplateWidth), 0);
}

#[test]
fn metric_width_denominator_saturates() {
    let t = solid(2, 2, [255, 255, 255]);
    let s = solid(2, 2, [0, 0, 0]);
    assert_eq!(calc_root_error_squares_mean_full(&t, &s, 0, 0, Denominator::TemplateWidth), 255);
    assert_eq!(calc_root_error_squares_mean_full(&t, &s, 0, 0, Denominator::ComparedPixels), 255);
    let s2 = solid(2, 2, [245, 255, 255]);
    // ComparedPixels: 4 * 100 / 12 = 33 -> 5; TemplateWidth: 400 / 6 = 66 -> 8.
    assert_eq!(calc_root_error_squares_mean_full(&t, &s2, 0, 0, Denominator::ComparedPixels), 5);
    assert_eq!(calc_root_error_squares_mean_full(&t, &s2, 0, 0, Denominator::TemplateWidth), 8);
}

#[test]
fn metric_symmetric() {
    let a = textured(4, 3);
    let mut b = solid(4, 3, [200, 100, 7]);
    put(&mut b, 0, 0, [1, 1, 1]);
    let ab = calc_root_error_squares_mean_full(&a, &b, 0, 0, Denominator::ComparedPixels);
    let ba = calc_root_error_squares_mean_full(&b, &a, 0, 0, Denominator::ComparedPixels);
    assert_eq!(ab, ba);
}

#[test]
fn partition_splits_into_overlapping_strips() {
    let p = partition(100, 10, 4);
    assert_eq!(
        p,
        vec![
            StripDescriptor { start: 0, height: 35 },
            StripDescriptor { start: 25, height: 35 },
            StripDescriptor { start: 50, height: 35 },
            StripDescriptor { start: 75, height: 25 },
        ]
    );
}

#[test]
fn partition_single_strip_when_few_bands() {
    assert_eq!(partition(30, 10, 8), vec![StripDescriptor { start: 0, height: 30 }]);
    assert_eq!(partition(100, 10, 1), vec![StripDescriptor { start: 0, height: 100 }]);
    assert_eq!(partition(100, 10, 0), vec![StripDescriptor { start: 0, height: 100 }]);
}

#[test]
fn partition_caps_workers_at_bands() {
    let p = partition(100, 10, 20);
    assert_eq!(p.len(), 10);
    for (i, s) in p.iter().enumerate() {
        assert_eq!(s.start, 10 * i);
        assert_eq!(s.height, if i == 9 { 10 } else { 20 });
    }
}

#[test]
fn partition_coverage_and_overlap() {
    for &(rh, th, w) in &[(100usize, 10usize, 4usize), (97, 7, 5), (64, 16, 3), (50, 3, 16)] {
        let p = partition(rh, th, w);
        assert_eq!(p[0].start, 0);
        assert_eq!(p[p.len() - 1].start + p[p.len() - 1].height, rh);
        for i in 0..p.len() - 1 {
            assert_eq!(p[i].start + p[i].height - p[i + 1].start, th);
        }
        for y in 0..rh {
            assert!(p.iter().any(|s| s.start <= y && y < s.start + s.height));
        }
    }
}

#[test]
fn scan_strip_writes_centres_only() {
    let s = textured(6, 5);
    let t = copy_region(&s, 2, 1, 3, 3);
    let m = scan_strip(&s, &t, 0, 6, 0, 5, Denominator::ComparedPixels);
    assert_eq!((m.width, m.height), (6, 5));
    assert_eq!(m.get(3, 2), 255);
    assert_eq!(m.get(0, 0), 0);
    assert_eq!(m.get(5, 4), 0);
    assert_eq!(m.get(0, 2), 0);
    assert_eq!(m.get(1, 1), window_score(&t, &s, 0, 0, Denominator::ComparedPixels));
    assert_eq!(m.get(4, 3), window_score(&t, &s, 3, 2, Denominator::ComparedPixels));
}

#[test]
fn merge_overlay_and_saturating_add() {
    let parts = vec![
        PartialMap { index: 1, start: 1, map: gray(2, 2, vec![200, 0, 5, 6]) },
        PartialMap { index: 0, start: 0, map: gray(2, 2, vec![1, 2, 100, 4]) },
    ];
    let o = merge(2, 3, &parts, MergePolicy::Overlay);
    assert_eq!(o.data, vec![1, 2, 200, 4, 5, 6]);
    let a = merge(2, 3, &parts, MergePolicy::SaturatingAdd);
    assert_eq!(a.data, vec![1, 2, 255, 4, 5, 6]);
}

#[test]
fn merge_order_independent() {
    let a = vec![
        PartialMap { index: 0, start: 0, map: gray(2, 2, vec![9, 8, 7, 6]) },
        PartialMap { index: 1, start: 1, map: gray(2, 2, vec![1, 0, 3, 4]) },
        PartialMap { index: 2, start: 2, map: gray(2, 1, vec![50, 60]) },
    ];
    let b = vec![
        PartialMap { index: 2, start: 2, map: gray(2, 1, vec![50, 60]) },
        PartialMap { index: 0, start: 0, map: gray(2, 2, vec![9, 8, 7, 6]) },
        PartialMap { index: 1, start: 1, map: gray(2, 2, vec![1, 0, 3, 4]) },
    ];
    for policy in [MergePolicy::Overlay, MergePolicy::SaturatingAdd] {
        assert_eq!(merge(2, 3, &a, policy).data, merge(2, 3, &b, policy).data);
    }
    assert_eq!(merge(2, 3, &a, MergePolicy::Overlay).data, vec![9, 8, 1, 6, 50, 60]);
}

#[test]
fn search_rejects_bad_dimensions() {
    let s = solid(10, 10, [1, 1, 1]);
    let t = solid(10, 3, [1, 1, 1]);
    let err = SearchError::Dimension {
        source_width: 10,
        source_height: 10,
        template_width: 10,
        template_height: 3,
        margin: 0,
    };
    assert_eq!(check_dimensions(&s, &t, 0), Err(err));
    assert!(search_with_workers(&s, &t, 0, 1, Denominator::ComparedPixels, MergePolicy::Overlay).is_err());
    let t2 = solid(3, 3, [1, 1, 1]);
    assert!(check_dimensions(&s, &t2, 0).is_ok());
    assert!(check_dimensions(&s, &t2, 3).is_ok());
    assert!(check_dimensions(&s, &t2, 4).is_err());
    assert!(check_dimensions(&s, &t2, 100).is_err());
    let empty = Image::from_raw(0, 3, vec![]).unwrap();
    assert!(check_dimensions(&s, &empty, 0).is_err());
}

#[test]
fn search_red_pixel_scenario() {
    let mut s = solid(100, 100, [255, 255, 255]);
    let mut t = solid(10, 10, [0, 0, 0]);
    put(&mut t, 5, 5, [255, 0, 0]);
    for y in 0..10 {
        for x in 0..10 {
            put(&mut s, 40 + x, 40 + y, [0, 0, 0]);
        }
    }
    put(&mut s, 45, 45, [255, 0, 0]);
    let map = search_with_workers(&s, &t, 0, 4, Denominator::ComparedPixels, MergePolicy::Overlay).unwrap();
    assert_eq!((map.width, map.height), (100, 100));
    assert_eq!(argmax(&map), (45, 45, 255));
    // red against white: (255^2 + 255^2) / 3 = 43350, root 208
    assert_eq!(map.get(20, 20), 47);
    // red against black: 255^2 / 3 = 21675, root 147
    assert_eq!(map.get(46, 45), 108);
    assert_eq!(map.get(0, 0), 0);
}

#[test]
fn search_exact_match_peak() {
    let s = textured(40, 36);
    let t = copy_region(&s, 11, 17, 6, 5);
    let map = search_with_workers(&s, &t, 0, 3, Denominator::ComparedPixels, MergePolicy::Overlay).unwrap();
    assert_eq!(argmax(&map), (14, 19, 255));
}

#[test]
fn search_single_and_multi_strip_agree() {
    let s = textured(30, 48);
    let t = copy_region(&s, 4, 9, 5, 6);
    let one = search_with_workers(&s, &t, 0, 1, Denominator::ComparedPixels, MergePolicy::Overlay).unwrap();
    let four = search_with_workers(&s, &t, 0, 4, Denominator::ComparedPixels, MergePolicy::Overlay).unwrap();
    assert_eq!(partition(48, 6, 4).len(), 4);
    assert_eq!(one.data, four.data);
    let any = search(&s, &t, 0, Denominator::ComparedPixels, MergePolicy::Overlay).unwrap();
    assert_eq!(one.data, any.data);
}

#[test]
fn search_with_margin() {
    let s = textured(30, 30);
    let t = copy_region(&s, 10, 12, 4, 4);
    let map = search_with_workers(&s, &t, 3, 2, Denominator::ComparedPixels, MergePolicy::Overlay).unwrap();
    assert_eq!((map.width, map.height), (24, 24));
    assert_eq!(argmax(&map), (7 + 2, 9 + 2, 255));
}

#[test]
fn search_saturating_add_doubles_shared_row() {
    let s = textured(20, 40);
    let t = copy_region(&s, 0, 0, 4, 5);
    let one = search_with_workers(&s, &t, 0, 1, Denominator::ComparedPixels, MergePolicy::SaturatingAdd).unwrap();
    let four = search_with_workers(&s, &t, 0, 4, Denominator::ComparedPixels, MergePolicy::SaturatingAdd).unwrap();
    let overlay = search_with_workers(&s, &t, 0, 4, Denominator::ComparedPixels, MergePolicy::Overlay).unwrap();
    assert_eq!(one.data, overlay.data);
    // the window whose top row starts the second strip is scored by two strips
    let (cx, cy) = (3 + 2, 10 + 2);
    let v = one.get(cx, cy) as u32;
    assert_eq!(four.get(cx, cy) as u32, std::cmp::min(255, 2 * v));
}
