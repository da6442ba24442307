use gftp::progress::{StreamProgress, SAMPLE_PERIOD_MS, SAMPLE_WINDOW};

#[test]
fn default_progress_is_empty() {
    let p = StreamProgress::default();
    assert_eq!(p.total, 0);
    assert_eq!(p.current, 0);
    assert_eq!(p.start, 0);
    assert!(p.upload_list.is_empty());
}

#[test]
fn sample_window_is_capped() {
    let mut p = StreamProgress::new(0);
    for i in 0..30u64 {
        p.push_sample(i);
    }
    assert_eq!(p.upload_list.len() as u64, SAMPLE_WINDOW);
    assert_eq!(*p.upload_list.front().unwrap(), 10);
    assert_eq!(*p.upload_list.back().unwrap(), 29);
}

#[test]
fn snapshot_equality_ignores_interior_samples() {
    let mut a = StreamProgress::new(7);
    let mut b = StreamProgress::new(7);
    a.total = 100;
    b.total = 100;
    a.current = 50;
    b.current = 50;
    for s in [0u64, 10, 20, 50] {
        a.push_sample(s);
    }
    for s in [0u64, 11, 22, 33, 50] {
        b.push_sample(s);
    }
    // Both windows hold two or more samples with equal first and last
    // entries, so the snapshots count as equal.
    assert!(a == b);
    b.push_sample(60);
    assert!(a != b);
}

#[test]
fn snapshot_equality_compares_short_windows_by_length() {
    let mut a = StreamProgress::new(0);
    let mut b = StreamProgress::new(0);
    a.push_sample(5);
    b.push_sample(9);
    // One-sample windows: only the lengths are compared.
    assert!(a == b);
    b.push_sample(9);
    assert!(a != b);
}

#[test]
fn snapshot_equality_requires_equal_scalars() {
    let mut a = StreamProgress::new(0);
    let b = StreamProgress::new(0);
    assert!(a == b);
    a.current = 1;
    assert!(a != b);
}

#[test]
fn tick_emits_the_documented_record() {
    let mut p = StreamProgress::new(0);
    p.total = 2000;
    p.current = 1000;
    p.push_sample(0);
    let last = StreamProgress::new(0);
    let info = p.tick(2000, &last).expect("a change with a known total is reported");
    assert_eq!(info.current, 1000);
    assert_eq!(info.total, 2000);
    assert_eq!(info.elapsed, 2);
    // Time-averaged: 1000 bytes over 2000 ms.
    assert_eq!(info.speed_total, 500);
    // Window of [0, 1000]: 1000 bytes over one sample period.
    assert_eq!(info.speed_curr, 1000 * 1000 / SAMPLE_PERIOD_MS);
}

#[test]
fn tick_reports_nothing_without_a_total() {
    let mut p = StreamProgress::new(0);
    p.current = 5;
    let last = StreamProgress::new(0);
    assert!(p.tick(250, &last).is_none());
}

#[test]
fn tick_suppresses_an_unchanged_snapshot() {
    let mut p = StreamProgress::new(0);
    p.total = 10;
    p.current = 5;
    let mut last = StreamProgress::new(0);
    last.total = 10;
    last.current = 5;
    last.push_sample(5);
    // After the tick samples `current`, the snapshot matches `last`.
    assert!(p.tick(250, &last).is_none());
    assert_eq!(p.upload_list.len(), 1);
}

#[test]
fn tick_with_fresh_window_reports_zero_window_speed() {
    let mut p = StreamProgress::new(0);
    p.total = 10;
    p.current = 10;
    let last = StreamProgress::new(0);
    let info = p.tick(0, &last).expect("the new current differs from last");
    assert_eq!(info.speed_curr, 0);
    assert_eq!(info.speed_total, 0);
    assert_eq!(info.elapsed, 0);
}
