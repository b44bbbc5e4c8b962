use lau_penrose_growth::diffraction::golden_indexing;

#[test]
fn golden_indexing_labels() {
    let idx = golden_indexing(23);
    assert_eq!(idx.len(), 23);
    assert_eq!(idx[0], (0, 0));
    assert_eq!(idx[9], (0, 9));
    assert_eq!(idx[10], (1, 0));
    assert_eq!(idx[22], (2, 2));
}

#[test]
fn golden_indexing_of_full_pattern() {
    // A pattern sampled at 50 directions in 3 shells has 150 peaks.
    let idx = golden_indexing(150);
    assert_eq!(idx.len(), 150);
    assert_eq!(idx[149], (14, 9));
}

#[test]
fn golden_indexing_empty() {
    assert!(golden_indexing(0).is_empty());
}

#[test]
fn test_golden_indexing() {
    // The pattern of the sun tiling is sampled at 50 directions in 3 shells.
    let num_peaks = 50 * 3;
    let indices = golden_indexing(num_peaks);
    assert_eq!(indices.len(), num_peaks);
}
