use fsearch_core::ranges::normalize_ranges;

#[test]
fn overlapping_ranges_merge() {
    assert_eq!(normalize_ranges(vec![(2, 5), (4, 7)]), vec![(2, 7)]);
}

#[test]
fn adjacent_ranges_merge() {
    assert_eq!(normalize_ranges(vec![(2, 5), (5, 7)]), vec![(2, 7)]);
}

#[test]
fn disjoint_ranges_stay_apart_and_sorted() {
    assert_eq!(normalize_ranges(vec![(8, 9), (2, 5), (6, 7)]), vec![(2, 5), (6, 7), (8, 9)]);
}

#[test]
fn normalization_edge_cases() {
    assert_eq!(normalize_ranges(vec![]), vec![]);
    assert_eq!(normalize_ranges(vec![(3, 3)]), vec![(3, 3)]);
    assert_eq!(normalize_ranges(vec![(2, 7), (2, 4), (0, 0)]), vec![(0, 0), (2, 7)]);
    assert_eq!(normalize_ranges(vec![(2, 4), (2, 7), (2, 7)]), vec![(2, 7)]);
    assert_eq!(normalize_ranges(vec![(1, 10), (2, 3), (4, 5), (11, 12)]), vec![(1, 10), (11, 12)]);
}

#[test]
fn normalized_ranges_are_separated_and_cover_the_same_positions() {
    let input = vec![(9, 12), (0, 2), (1, 3), (20, 21), (12, 15), (7, 7)];
    let out = normalize_ranges(input.clone());
    assert_eq!(out, vec![(0, 3), (7, 7), (9, 15), (20, 21)]);
    for w in out.windows(2) {
        assert!(w[0].1 < w[1].0);
    }
    for x in 0..25usize {
        let before = input.iter().any(|r| r.0 <= x && x < r.1);
        let after = out.iter().any(|r| r.0 <= x && x < r.1);
        assert_eq!(before, after);
    }
}
