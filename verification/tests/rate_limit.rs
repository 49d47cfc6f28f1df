use balancebeam::rate_limit::{RateLimitTable, WINDOW_MILLIS};

#[test]
fn fourth_request_in_a_window_is_denied_and_next_window_allows_again() {
    let mut table = RateLimitTable::new();
    let start: u64 = 1_000;
    assert!(table.is_allowed("10.0.0.1", start, 3));
    assert!(table.is_allowed("10.0.0.1", start + 10, 3));
    assert!(table.is_allowed("10.0.0.1", start + 20, 3));
    assert!(!table.is_allowed("10.0.0.1", start + 30, 3));
    assert!(table.is_allowed("10.0.0.1", start + WINDOW_MILLIS, 3));
    assert_eq!(table.window_of("10.0.0.1"), Some((1, start + WINDOW_MILLIS)));
}

#[test]
fn limit_zero_allows_everything_and_records_nothing() {
    let mut table = RateLimitTable::new();
    for i in 0..100u64 {
        assert!(table.is_allowed("10.0.0.1", i, 0));
    }
    assert_eq!(table.window_of("10.0.0.1"), None);
}

#[test]
fn rejected_requests_still_count() {
    let mut table = RateLimitTable::new();
    assert!(table.is_allowed("a", 0, 1));
    assert!(!table.is_allowed("a", 1, 1));
    assert!(!table.is_allowed("a", 2, 1));
    assert_eq!(table.window_of("a"), Some((3, 0)));
}

#[test]
fn window_opens_with_the_first_request_and_lasts_one_minute() {
    let mut table = RateLimitTable::new();
    assert!(table.is_allowed("a", 5_000, 1));
    assert_eq!(table.window_of("a"), Some((1, 5_000)));
    assert!(!table.is_allowed("a", 5_000 + 59_999, 1));
    assert_eq!(table.window_of("a"), Some((2, 5_000)));
    assert!(table.is_allowed("a", 5_000 + 60_000, 1));
    assert_eq!(table.window_of("a"), Some((1, 65_000)));
}

#[test]
fn window_length_is_sixty_seconds() {
    assert_eq!(WINDOW_MILLIS, 60_000);
}

#[test]
fn clients_are_counted_apart() {
    let mut table = RateLimitTable::new();
    assert!(table.is_allowed("a", 0, 1));
    assert!(table.is_allowed("b", 0, 1));
    assert!(!table.is_allowed("a", 1, 1));
    assert!(!table.is_allowed("b", 1, 1));
    assert_eq!(table.window_of("a"), Some((2, 0)));
    assert_eq!(table.window_of("b"), Some((2, 0)));
    assert_eq!(table.window_of("c"), None);
}

#[test]
fn burst_across_a_window_boundary_admits_twice_the_limit() {
    let mut table = RateLimitTable::new();
    let mut admitted = 0;
    assert!(table.is_allowed("a", 0, 3));
    admitted += 1;
    for t in [59_990u64, 59_995, 59_999, 60_000, 60_001, 60_002, 60_003] {
        if table.is_allowed("a", t, 3) {
            admitted += 1;
        }
    }
    assert_eq!(admitted, 6);
}

#[test]
fn a_clock_that_steps_back_opens_no_new_window() {
    let mut table = RateLimitTable::new();
    assert!(table.is_allowed("a", 100_000, 2));
    assert!(table.is_allowed("a", 10, 2));
    assert!(!table.is_allowed("a", 20, 2));
    assert_eq!(table.window_of("a"), Some((3, 100_000)));
}

#[test]
fn each_request_up_to_the_limit_is_admitted() {
    for limit in 1..20usize {
        let mut table = RateLimitTable::new();
        for k in 0..40u64 {
            let allowed = table.is_allowed("198.51.100.7", 500 + k, limit);
            assert_eq!(allowed, (k as usize) < limit);
        }
        assert_eq!(table.window_of("198.51.100.7"), Some((40, 500)));
    }
}
