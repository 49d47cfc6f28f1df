use balancebeam::health::{
    health_check_url, health_check_urls, record_probe, ProbeOutcome, PROBE_TIMEOUT_SECS,
};
use balancebeam::upstream::UpstreamPool;
use rand::rngs::StdRng;
use rand::SeedableRng;

fn probed_pool(addrs: &[&str]) -> UpstreamPool {
    UpstreamPool::new(addrs.iter().map(|a| a.to_string()).collect()).unwrap()
}

#[test]
fn probe_url_joins_scheme_address_and_path() {
    assert_eq!(health_check_url("127.0.0.1:8080", "/"), "http://127.0.0.1:8080/");
    assert_eq!(health_check_url("backend:9", "/health/check"), "http://backend:9/health/check");
    assert_eq!(health_check_url("", ""), "http://");
}

#[test]
fn one_probe_per_upstream_in_order() {
    let pool = probed_pool(&["a:1", "b:2", "c:3"]);
    assert_eq!(
        health_check_urls(&pool, "/ping"),
        vec!["http://a:1/ping", "http://b:2/ping", "http://c:3/ping"]
    );
}

#[test]
fn probe_timeout_is_one_second() {
    assert_eq!(PROBE_TIMEOUT_SECS, 1);
}

#[test]
fn only_success_statuses_are_healthy() {
    assert!(ProbeOutcome::Responded(200).is_healthy());
    assert!(ProbeOutcome::Responded(204).is_healthy());
    assert!(ProbeOutcome::Responded(299).is_healthy());
    assert!(!ProbeOutcome::Responded(199).is_healthy());
    assert!(!ProbeOutcome::Responded(300).is_healthy());
    assert!(!ProbeOutcome::Responded(404).is_healthy());
    assert!(!ProbeOutcome::Responded(500).is_healthy());
    assert!(!ProbeOutcome::Responded(0).is_healthy());
    assert!(!ProbeOutcome::Responded(99).is_healthy());
    assert!(!ProbeOutcome::Responded(1000).is_healthy());
    assert!(!ProbeOutcome::Responded(u16::MAX).is_healthy());
    assert!(!ProbeOutcome::TimedOut.is_healthy());
    assert!(!ProbeOutcome::ConnectionFailed.is_healthy());
}

#[test]
fn success_codes_are_those_the_http_crate_names() {
    for code in 100..1000u16 {
        let status = http::StatusCode::from_u16(code).unwrap();
        assert_eq!(ProbeOutcome::Responded(code).is_healthy(), status.is_success());
    }
}

#[test]
fn failed_probe_marks_dead_and_successful_probe_revives() {
    let mut pool = probed_pool(&["a:1", "b:2"]);
    record_probe(&mut pool, 0, ProbeOutcome::TimedOut);
    assert!(pool.is_dead(0));
    record_probe(&mut pool, 1, ProbeOutcome::Responded(503));
    assert!(pool.is_dead(1));
    let mut rng = StdRng::seed_from_u64(8);
    assert_eq!(pool.select(&mut rng), None);
    record_probe(&mut pool, 0, ProbeOutcome::Responded(200));
    assert!(!pool.is_dead(0));
    assert_eq!(pool.select(&mut rng), Some(0));
    record_probe(&mut pool, 1, ProbeOutcome::ConnectionFailed);
    assert!(pool.is_dead(1));
    assert_eq!(pool.dead_count(), 1);
}

#[test]
fn probe_results_repeat_without_effect() {
    let mut pool = probed_pool(&["a:1"]);
    record_probe(&mut pool, 0, ProbeOutcome::Responded(200));
    assert_eq!(pool.dead_count(), 0);
    record_probe(&mut pool, 0, ProbeOutcome::ConnectionFailed);
    record_probe(&mut pool, 0, ProbeOutcome::ConnectionFailed);
    assert_eq!(pool.dead_count(), 1);
}
