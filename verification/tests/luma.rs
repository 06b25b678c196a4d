use ui_automata::luma::{compare_luma, downscale_luma, SnapshotVerdict};

#[test]
fn downscale_means_blocks() {
    // 4x2 image, factor 2 -> 2x1
    let img = vec![0, 2, 10, 20, 4, 6, 30, 41];
    let (out, w, h) = downscale_luma(&img, 4, 2, 2);
    assert_eq!((w, h), (2, 1));
    assert_eq!(out, vec![3, 25]);
}

#[test]
fn downscale_drops_partial_blocks() {
    let img: Vec<i32> = (0..15).collect();
    let (out, w, h) = downscale_luma(&img, 5, 3, 2);
    assert_eq!((w, h), (2, 1));
    // blocks: (0,1,5,6) and (2,3,7,8)
    assert_eq!(out, vec![3, 5]);
}

#[test]
fn downscale_by_one_is_identity() {
    let img = vec![1, 2, 3, 4, 5, 6];
    let (out, w, h) = downscale_luma(&img, 3, 2, 1);
    assert_eq!((out, w, h), (img.clone(), 3, 2));
}

#[test]
fn compare_identical_images() {
    let a = vec![10, 20, 30, 40];
    assert_eq!(
        compare_luma(a.clone(), 2, 2, a, 2, 2, 1, 0),
        SnapshotVerdict::Compared { failing: 0, total: 4 }
    );
}

#[test]
fn compare_dimension_mismatch() {
    let a = vec![0; 16];
    let g = vec![0; 4];
    assert_eq!(
        compare_luma(a, 4, 4, g, 1, 4, 1, 10),
        SnapshotVerdict::DimensionMismatch
    );
}

#[test]
fn compare_small_size_difference_uses_overlap() {
    let a = vec![5; 12];
    let g = vec![5; 9];
    assert_eq!(
        compare_luma(a, 4, 3, g, 3, 3, 1, 0),
        SnapshotVerdict::Compared { failing: 0, total: 9 }
    );
}

#[test]
fn compare_too_small_after_downscale() {
    let a = vec![1; 4];
    let g = vec![1; 4];
    assert_eq!(compare_luma(a, 2, 2, g, 2, 2, 4, 0), SnapshotVerdict::TooSmall);
}

#[test]
fn compare_counts_failing_pixels() {
    // A single bright pixel in a dark 3x3 image fails at low tolerance.
    let a = vec![0, 0, 0, 0, 200, 0, 0, 0, 0];
    let g = vec![0; 9];
    assert_eq!(
        compare_luma(a.clone(), 3, 3, g.clone(), 3, 3, 1, 10),
        SnapshotVerdict::Compared { failing: 1, total: 9 }
    );
    // A high tolerance absorbs the difference.
    assert_eq!(
        compare_luma(a, 3, 3, g, 3, 3, 1, 255),
        SnapshotVerdict::Compared { failing: 0, total: 9 }
    );
}

#[test]
fn compare_neighbourhood_absorbs_one_pixel_shift() {
    // The same bright pixel moved by one: each image has a close value nearby.
    let a = vec![0, 0, 0, 0, 200, 0, 0, 0, 0];
    let g = vec![0, 0, 0, 0, 0, 200, 0, 0, 0];
    assert_eq!(
        compare_luma(a, 3, 3, g, 3, 3, 1, 10),
        SnapshotVerdict::Compared { failing: 0, total: 9 }
    );
}

#[test]
fn downscale_reads_only_the_image_of_a_longer_buffer() {
    let luma = vec![1, 2, 3, 4, 99, 99];
    let (out, w, h) = downscale_luma(&luma, 2, 2, 2);
    assert_eq!((w, h), (1, 1));
    assert_eq!(out, vec![2]);
}
