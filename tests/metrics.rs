use proxy_manager::metrics::{traffic_stat_row, Metrics};

#[test]
fn statuses_are_bucketed() {
    let mut m = Metrics::new();
    m.record(Some(200), 10);
    m.record(Some(404), 5);
    m.record(Some(503), 1);
    m.record(Some(302), 7);
    m.record(None, 100);
    assert_eq!(m.reset(), (5, 23, 1, 1, 1));
    assert_eq!(m.reset(), (0, 0, 0, 0, 0));
}

#[test]
fn counters_wrap() {
    let mut m = Metrics::new();
    m.total_requests = u64::MAX;
    m.total_bytes = u64::MAX - 1;
    m.record(Some(200), 3);
    assert_eq!(m.total_requests, 0);
    assert_eq!(m.total_bytes, 1);
}

#[test]
fn flush_rows_only_with_traffic() {
    assert!(traffic_stat_row((0, 0, 0, 0, 0), 100).is_none());
    let row = traffic_stat_row((3, 30, 2, 1, 0), 100).unwrap();
    assert_eq!((row.timestamp, row.total_requests, row.total_bytes, row.status_2xx, row.status_4xx, row.status_5xx), (100, 3, 30, 2, 1, 0));
}
