use balancebeam::config::{
    ProxyConfig, DEFAULT_BIND, DEFAULT_HEALTH_CHECK_INTERVAL, DEFAULT_HEALTH_CHECK_PATH,
    DEFAULT_MAX_REQUESTS_PER_MINUTE,
};

#[test]
fn defaults_are_those_of_the_command_line() {
    assert_eq!(DEFAULT_BIND, "0.0.0.0:1100");
    assert_eq!(DEFAULT_HEALTH_CHECK_INTERVAL, 10);
    assert_eq!(DEFAULT_HEALTH_CHECK_PATH, "/");
    assert_eq!(DEFAULT_MAX_REQUESTS_PER_MINUTE, 0);
    let config = ProxyConfig::with_defaults(vec!["a:1".to_string()]);
    assert_eq!(config.bind, "0.0.0.0:1100");
    assert_eq!(config.upstream, vec!["a:1".to_string()]);
    assert_eq!(config.active_health_check_interval, 10);
    assert_eq!(config.active_health_check_path, "/");
    assert_eq!(config.max_requests_per_minute, 0);
    assert!(!config.limits_requests());
}

#[test]
fn configuration_without_upstream_is_not_valid() {
    let config = ProxyConfig::with_defaults(Vec::new());
    assert!(!config.is_valid());
    assert!(config.upstream_pool().is_none());
}

#[test]
fn valid_configuration_gives_a_pool_of_live_upstreams() {
    let mut config = ProxyConfig::with_defaults(vec!["a:1".to_string(), "b:2".to_string()]);
    config.max_requests_per_minute = 3;
    assert!(config.is_valid());
    assert!(config.limits_requests());
    let pool = config.upstream_pool().unwrap();
    assert_eq!(pool.len(), 2);
    assert_eq!(pool.address(0), "a:1");
    assert_eq!(pool.address(1), "b:2");
    assert_eq!(pool.dead_count(), 0);
    assert_eq!(pool.live_candidates(), vec![0, 1]);
}
