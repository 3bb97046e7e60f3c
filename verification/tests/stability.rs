//! The per-route stability patterns: backoff schedule, circuit breaker,
//! throttler.

use gasket::stability_patterns::ExponentialBackoff;
use gasket::stability_patterns::StabilityPatterns;

#[test]
fn next_backoff_without_entry_returns_fallback() {
    let mut reg = StabilityPatterns::new();
    let d = reg.next_backoff("/missing".to_string());
    assert_eq!(d, 5000);
    // and nothing was created
    assert_eq!(reg.backoff_requests(&"/missing".to_string()), None);
}

#[test]
fn backoff_schedule_first_values() {
    let mut reg = StabilityPatterns::new();
    let route = "/hello".to_string();
    reg.exponential_backoff(route.clone());
    assert_eq!(reg.current_timeout(route.clone()), 100);
    assert_eq!(reg.next_backoff(route.clone()), 100);
    assert_eq!(reg.next_backoff(route.clone()), 120);
    assert_eq!(reg.next_backoff(route.clone()), 160);
    assert_eq!(reg.next_backoff(route.clone()), 240);
    assert_eq!(reg.next_backoff(route.clone()), 400);
    assert_eq!(reg.current_timeout(route.clone()), 400);
}

#[test]
fn backoff_is_monotone_and_bounded() {
    let mut reg = StabilityPatterns::new();
    let route = "/slow".to_string();
    reg.exponential_backoff(route.clone());
    let mut prev = 0u64;
    for _ in 0..70 {
        let d = reg.next_backoff(route.clone());
        assert!(d >= prev);
        assert!(d <= 60000);
        prev = d;
    }
    assert_eq!(prev, 60000);
}

#[test]
fn backoff_reset_starts_over() {
    let mut reg = StabilityPatterns::new();
    let route = "/r".to_string();
    reg.exponential_backoff(route.clone());
    reg.next_backoff(route.clone());
    reg.next_backoff(route.clone());
    reg.reset_backoff(route.clone());
    assert_eq!(reg.current_timeout(route.clone()), 100);
    assert_eq!(reg.backoff_requests(&route), Some(0));
    assert_eq!(reg.next_backoff(route.clone()), 100);
}

#[test]
fn backoff_entry_is_created_once() {
    let mut reg = StabilityPatterns::new();
    let route = "/once".to_string();
    reg.exponential_backoff(route.clone());
    reg.next_backoff(route.clone());
    // a second ensure keeps the advanced entry
    reg.exponential_backoff(route.clone());
    assert_eq!(reg.backoff_requests(&route), Some(1));
}

#[test]
fn next_with_reset_starts_over_past_the_cap() {
    let mut eb = ExponentialBackoff::new();
    for k in 1..=50 {
        eb.next_with_reset();
        assert_eq!(eb.requests, k);
    }
    // the 51st advance pushes the count past max_requests and resets
    let d = eb.next_with_reset();
    assert_eq!(d, 60000);
    assert_eq!(eb.requests, 0);
    assert_eq!(eb.current_timeout, 100);
}

#[test]
fn circuit_unknown_route_is_closed() {
    let mut reg = StabilityPatterns::new();
    assert!(reg.check_cb_status("/new".to_string()));
    assert_eq!(reg.cb_error_count(&"/new".to_string()), Some(0));
}

#[test]
fn circuit_opens_after_max_trips() {
    let mut reg = StabilityPatterns::new();
    let route = "/flaky".to_string();
    for _ in 0..10 {
        assert!(reg.trip(route.clone()));
    }
    // the eleventh error exceeds the default budget of 10
    assert!(!reg.trip(route.clone()));
    assert!(!reg.check_cb_status(route.clone()));
    assert_eq!(reg.cb_error_count(&route), Some(11));
}

#[test]
fn circuit_reset_closes_regardless_of_prior_trips() {
    let mut reg = StabilityPatterns::new();
    let route = "/burnt".to_string();
    for _ in 0..25 {
        reg.trip(route.clone());
    }
    assert!(!reg.check_cb_status(route.clone()));
    reg.reset(route.clone());
    assert!(reg.check_cb_status(route.clone()));
    assert_eq!(reg.cb_error_count(&route), Some(0));
}

#[test]
fn circuit_reset_on_unknown_route_is_harmless() {
    let mut reg = StabilityPatterns::new();
    reg.reset("/ghost".to_string());
    assert!(reg.check_cb_status("/ghost".to_string()));
}

#[test]
fn circuit_custom_budget() {
    let mut reg = StabilityPatterns::new();
    let route = "/tight".to_string();
    reg.circuitbreaker(route.clone(), 2);
    assert!(reg.trip(route.clone()));
    assert!(reg.trip(route.clone()));
    assert!(!reg.trip(route.clone()));
}

#[test]
fn routes_are_independent() {
    let mut reg = StabilityPatterns::new();
    for _ in 0..11 {
        reg.trip("/a".to_string());
    }
    assert!(!reg.check_cb_status("/a".to_string()));
    assert!(reg.check_cb_status("/b".to_string()));
    reg.exponential_backoff("/a".to_string());
    reg.next_backoff("/a".to_string());
    reg.next_backoff("/a".to_string());
    reg.exponential_backoff("/b".to_string());
    assert_eq!(reg.current_timeout("/b".to_string()), 100);
    assert_eq!(reg.current_timeout("/a".to_string()), 120);
}

#[test]
fn throttler_limits_a_window() {
    let mut reg = StabilityPatterns::new();
    let route = "/busy".to_string();
    // a window long enough that the whole test stays inside it
    reg.ensure_throttler(route.clone(), 2, 3_600_000);
    assert!(reg.throttle(route.clone()));
    assert!(reg.throttle(route.clone()));
    assert!(!reg.throttle(route.clone()));
}

#[test]
fn throttle_without_entry_allows() {
    let mut reg = StabilityPatterns::new();
    assert!(reg.throttle("/free".to_string()));
}
