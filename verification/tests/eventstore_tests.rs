use blackholed::eventstore::{
    blocked_key, client_pause_key, from_secs, page_range, sweep_cutoff, timestamp_secs, CLIENTS_KEY,
    GLOBAL_PAUSE_KEY,
};

#[test]
fn keys() {
    assert_eq!(blocked_key("10.0.0.1"), "blocked#10.0.0.1");
    assert_eq!(client_pause_key("::1"), "pause#::1");
    assert_eq!(GLOBAL_PAUSE_KEY, "pause#global");
    assert_eq!(CLIENTS_KEY, "clients");
}

#[test]
fn ranges_and_cutoffs() {
    assert_eq!(page_range(0, 101), (0, 100));
    assert_eq!(page_range(200, 1), (200, 200));
    assert_eq!(sweep_cutoff(10_000, 3_600), 6_400);
}

#[test]
fn whole_seconds() {
    assert_eq!(timestamp_secs(1_500_000_000), 1);
    assert_eq!(timestamp_secs(-1), -1);
    assert_eq!(timestamp_secs(-1_000_000_000), -1);
    assert_eq!(timestamp_secs(0), 0);
    assert_eq!(from_secs(5), Some(5_000_000_000));
    assert_eq!(from_secs(i64::MAX), None);
    assert_eq!(timestamp_secs(from_secs(1_700_000_000).unwrap()), 1_700_000_000);
}
