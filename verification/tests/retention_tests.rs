use btm::{select_for_deletion, SnapAlgo};

#[test]
fn fair_keeps_the_most_recent_capacity_heights() {
    let heights: Vec<u64> = vec![50, 40, 30, 20, 10];
    let del = select_for_deletion(&heights, 3, SnapAlgo::Fair, 10, 10);
    assert_eq!(del, vec![20, 10]);
}

#[test]
fn fair_with_room_deletes_nothing() {
    let heights: Vec<u64> = vec![50, 40, 30];
    let del = select_for_deletion(&heights, 5, SnapAlgo::Fair, 10, 10);
    assert!(del.is_empty());
}

#[test]
fn fair_is_idempotent() {
    let heights: Vec<u64> = vec![50, 40, 30, 20, 10];
    let del = select_for_deletion(&heights, 2, SnapAlgo::Fair, 10, 10);
    assert_eq!(del, vec![30, 20, 10]);
    let kept: Vec<u64> = heights.iter().copied().filter(|h| !del.contains(h)).collect();
    assert_eq!(kept, vec![50, 40]);
    let again = select_for_deletion(&kept, 2, SnapAlgo::Fair, 10, 10);
    assert!(again.is_empty());
}

#[test]
fn fair_capacity_zero_deletes_everything() {
    let heights: Vec<u64> = vec![3, 2, 1];
    let del = select_for_deletion(&heights, 0, SnapAlgo::Fair, 10, 10);
    assert_eq!(del, vec![3, 2, 1]);
}

#[test]
fn fade_keeps_one_height_per_band() {
    // interval 10: ages in intervals are 0,1,2,...,9; band 0 covers age 0,
    // band 1 covers ages 1..=10, so only the newest of 90..=10 survives
    // beside 100 itself.
    let heights: Vec<u64> = vec![100, 90, 80, 70, 60, 50, 40, 30, 20, 10];
    let del = select_for_deletion(&heights, 5, SnapAlgo::Fade, 10, 10);
    assert_eq!(del, vec![80, 70, 60, 50, 40, 30, 20, 10]);
}

#[test]
fn fade_kept_set_never_exceeds_capacity() {
    let heights: Vec<u64> = vec![100, 90, 80, 70, 60, 50, 40, 30, 20, 10];
    for cap in 0..6u64 {
        let del = select_for_deletion(&heights, cap, SnapAlgo::Fade, 10, 10);
        let kept = heights.len() - del.len();
        assert!(kept as u64 <= cap);
    }
}

#[test]
fn fade_keeps_the_most_recent_height() {
    let heights: Vec<u64> = vec![1000, 995, 700, 300, 120, 40, 7];
    let del = select_for_deletion(&heights, 4, SnapAlgo::Fade, 10, 10);
    assert!(!del.contains(&1000));
}

#[test]
fn fade_clamp_discards_oldest_kept_first() {
    // The curve keeps 100 and 90; with capacity 1 the older kept
    // representative, 90, is discarded too.
    let heights: Vec<u64> = vec![100, 90, 80, 70, 60, 50, 40, 30, 20, 10];
    let del = select_for_deletion(&heights, 1, SnapAlgo::Fade, 10, 10);
    assert_eq!(del, vec![80, 70, 60, 50, 40, 30, 20, 10, 90]);
}

#[test]
fn fade_is_stable() {
    let heights: Vec<u64> = vec![100, 90, 80, 70, 60, 50, 40, 30, 20, 10];
    for cap in 1..6u64 {
        let del = select_for_deletion(&heights, cap, SnapAlgo::Fade, 10, 10);
        let kept: Vec<u64> = heights.iter().copied().filter(|h| !del.contains(h)).collect();
        let again = select_for_deletion(&kept, cap, SnapAlgo::Fade, 10, 10);
        assert!(again.is_empty(), "cap {} kept {:?} re-deleted {:?}", cap, kept, again);
    }
}

#[test]
fn fade_empty_input_deletes_nothing() {
    let heights: Vec<u64> = Vec::new();
    let del = select_for_deletion(&heights, 3, SnapAlgo::Fade, 10, 10);
    assert!(del.is_empty());
}

#[test]
fn fade_interval_one_bands_grow_one_by_one() {
    // interval 1: every block is its own interval; band 0 covers age 0,
    // band 1 covers age 1, band 2 covers ages 2..=2, and so on, so the
    // first ten distinct ages each keep their newest height.
    let heights: Vec<u64> = vec![9, 8, 7, 6, 5, 4, 3, 2, 1, 0];
    let del = select_for_deletion(&heights, 100, SnapAlgo::Fade, 1, 10);
    assert!(del.is_empty());
}

#[test]
fn fade_deletes_beyond_the_last_band() {
    // interval 1 and two bands: band 0 covers age 0, band 1 covers age 1;
    // everything older lies beyond the last band and is deleted.
    let heights: Vec<u64> = vec![9, 8, 7, 6];
    let del = select_for_deletion(&heights, 100, SnapAlgo::Fade, 1, 2);
    assert_eq!(del, vec![7, 6]);
}
