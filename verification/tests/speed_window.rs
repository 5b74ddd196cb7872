use octoget::speed::SpeedMonitor;

#[test]
fn stale_samples_leave_the_front() {
    let mut m = SpeedMonitor::new();
    m.add_at(1_000, 10);
    m.add_at(2_000, 20);
    m.add_at(6_999, 30);
    assert_eq!(m.history.len(), 3);
    m.add_at(7_000, 40);
    let h: Vec<(u64, u64)> = m.history.iter().cloned().collect();
    assert_eq!(h, vec![(2_000, 20), (6_999, 30), (7_000, 40)]);
}

#[test]
fn window_counts_fresh_samples() {
    let mut m = SpeedMonitor::new();
    m.add_at(1_000, 10);
    m.add_at(3_000, 20);
    m.add_at(4_000, 30);
    let w = m.window(8_500);
    assert_eq!(w.samples, 2);
    assert_eq!(w.total_bytes, 50);
    assert_eq!(w.first_ms, 3_000);
    assert_eq!(w.last_ms, 4_000);
    let empty = SpeedMonitor::new().window(5);
    assert_eq!((empty.samples, empty.total_bytes, empty.first_ms, empty.last_ms), (0, 0, 0, 0));
}

#[test]
fn add_records_a_sample_now() {
    let mut m = SpeedMonitor::new();
    m.add(7);
    assert_eq!(m.history.len(), 1);
    assert_eq!(m.history[0].1, 7);
}
