use vyuta::series::{active_spans, downsample_buckets};

#[test]
fn short_series_or_huge_budgets_need_no_buckets() {
    assert!(downsample_buckets(10, 2000).is_none());
    assert!(downsample_buckets(10, usize::MAX).is_none());
    assert!(downsample_buckets(10, 3).is_none());
}

#[test]
fn buckets_cut_the_samples_evenly() {
    let b = downsample_buckets(10, 4).unwrap();
    assert_eq!(b, vec![(0, 5), (5, 10)]);
    let b = downsample_buckets(7, 6).unwrap();
    assert_eq!(b, vec![(0, 2), (2, 4), (4, 7)]);
    let big = usize::MAX / 2;
    let b = downsample_buckets(big, 4).unwrap();
    assert_eq!(b, vec![(0, big / 2), (big / 2, big)]);
}

#[test]
fn flag_spans_close_and_stay_open() {
    let f = [false, true, true, false, true];
    assert_eq!(active_spans(&f), vec![(1, Some(3)), (4, None)]);
}
