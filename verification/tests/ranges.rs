use bluestation::ranges::{SortedDisjointSsiRanges, SsiRange};

#[test]
fn test_range_sorting() {
    let ssi_ranges = vec![
        SsiRange { start: 300, end: 400 },
        SsiRange { start: 100, end: 200 },
        SsiRange { start: 500, end: 600 },
    ];
    let sorted = SortedDisjointSsiRanges::from_vec_ssirange(ssi_ranges);
    let s = sorted.as_slice();
    assert_eq!(s[0].start, 100);
    assert_eq!(s[1].start, 300);
    assert_eq!(s[2].start, 500);
}

#[test]
fn test_adjacent_ranges() {
    let ssi_ranges = vec![SsiRange { start: 100, end: 200 }, SsiRange { start: 200, end: 300 }];
    SortedDisjointSsiRanges::from_vec_ssirange(ssi_ranges);
}

#[test]
fn test_containment() {
    let ranges = SortedDisjointSsiRanges::from_vec_ssirange(vec![
        SsiRange { start: 100, end: 200 },
        SsiRange { start: 400, end: 500 },
    ]);
    assert!(ranges.contains(100));
    assert!(ranges.contains(150));
    assert!(!ranges.contains(200));
    assert!(!ranges.contains(250));
    assert!(ranges.contains(450));
}

#[test]
fn ranges_from_tuples() {
    let ranges = SortedDisjointSsiRanges::from_vec_tuple(vec![(500, 600), (10, 20)]);
    assert_eq!(ranges.as_slice()[0].start, 10);
    assert!(ranges.contains(599));
    assert!(!ranges.contains(600));
}

#[test]
fn empty_range_sharing_a_start_is_accepted() {
    let sorted = SortedDisjointSsiRanges::from_vec_ssirange(vec![
        SsiRange { start: 100, end: 200 },
        SsiRange { start: 100, end: 100 },
    ]);
    let s = sorted.as_slice();
    assert_eq!((s[0].start, s[0].end), (100, 100));
    assert_eq!((s[1].start, s[1].end), (100, 200));
    assert!(sorted.contains(100));
    assert!(!sorted.contains(200));
}
