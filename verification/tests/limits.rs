use meev::dedup::{event_key, Dedup};
use meev::rate_limit::{client_ip, rate_limit_key, RateLimiter};

const SEC: u64 = 1_000_000_000;

#[test]
fn limiter_reports_its_limit() {
    let l = RateLimiter::new(120, 60);
    assert_eq!(l.requests_per_minute(), 120);
}

#[test]
fn limiter_admits_up_to_the_limit_then_refuses() {
    let mut l = RateLimiter::new(3, 60);
    assert_eq!(l.check_at("k", 0), Ok(()));
    assert_eq!(l.check_at("k", SEC), Ok(()));
    assert_eq!(l.check_at("k", 2 * SEC), Ok(()));
    // the oldest request leaves the window at 60 s: 50 s to wait at 10 s
    assert_eq!(l.check_at("k", 10 * SEC), Err(50));
    // a refused request is not remembered
    assert_eq!(l.check_at("k", 10 * SEC), Err(50));
}

#[test]
fn limiter_window_slides() {
    let mut l = RateLimiter::new(2, 60);
    assert_eq!(l.check_at("k", 0), Ok(()));
    assert_eq!(l.check_at("k", 30 * SEC), Ok(()));
    assert_eq!(l.check_at("k", 59 * SEC), Err(1));
    // at exactly 60 s the first request has left the window
    assert_eq!(l.check_at("k", 60 * SEC), Ok(()));
    assert_eq!(l.check_at("k", 61 * SEC), Err(29));
}

#[test]
fn limiter_retry_after_is_at_least_one_second() {
    let mut l = RateLimiter::new(1, 60);
    assert_eq!(l.check_at("k", 0), Ok(()));
    assert_eq!(l.check_at("k", 59 * SEC + SEC / 2), Err(1));
}

#[test]
fn limiter_keys_are_independent() {
    let mut l = RateLimiter::new(1, 60);
    assert_eq!(l.check_at("a", 0), Ok(()));
    assert_eq!(l.check_at("b", 0), Ok(()));
    assert!(l.check_at("a", SEC).is_err());
    assert!(l.check_at("b", SEC).is_err());
}

#[test]
fn limiter_with_clock_admits_first_request() {
    let mut l = RateLimiter::new(2, 60);
    assert_eq!(l.check("ip:1.2.3.4"), Ok(()));
    assert_eq!(l.check("ip:1.2.3.4"), Ok(()));
    assert!(l.check("ip:1.2.3.4").is_err());
}

#[test]
fn client_ip_trusts_proxy_headers_only_when_configured() {
    assert_eq!(client_ip(true, Some(" 10.0.0.1 , 10.0.0.2"), Some("9.9.9.9")), "10.0.0.1");
    assert_eq!(client_ip(true, Some(" , x"), Some(" 9.9.9.9 ")), "9.9.9.9");
    assert_eq!(client_ip(true, None, None), "unknown");
    assert_eq!(client_ip(false, Some("10.0.0.1"), Some("9.9.9.9")), "unknown");
}

#[test]
fn rate_limit_key_prefers_user() {
    assert_eq!(rate_limit_key(Some("abc"), "1.2.3.4"), "u:abc");
    assert_eq!(rate_limit_key(None, "1.2.3.4"), "ip:1.2.3.4");
}

#[test]
fn dedup_suppresses_repeats_within_ttl() {
    let mut d = Dedup::new();
    assert!(d.see_at("meev/x/messages", 0));
    assert!(!d.see_at("meev/x/messages", 89 * SEC));
    assert!(d.see_at("meev/x/typing", 89 * SEC));
}

#[test]
fn dedup_accepts_again_after_ttl_and_restarts_clock() {
    let mut d = Dedup::new();
    assert!(d.see_at("t", 0));
    assert!(d.see_at("t", 90 * SEC));
    assert!(!d.see_at("t", 100 * SEC));
    assert!(d.see_at("t", 180 * SEC));
}

#[test]
fn dedup_with_clock() {
    let mut d = Dedup::new();
    assert!(d.see("k"));
    assert!(!d.see("k"));
}

#[test]
fn dedup_default_is_empty() {
    let mut d = Dedup::default();
    assert!(d.see_at("k", 5));
}

#[test]
fn limiter_counts_only_admitted_requests_of_the_same_key() {
    let mut l = RateLimiter::new(2, 10);
    assert_eq!(l.check_at("a", 0), Ok(()));
    assert_eq!(l.check_at("b", SEC), Ok(()));
    assert_eq!(l.check_at("b", 2 * SEC), Ok(()));
    assert_eq!(l.check_at("a", 3 * SEC), Ok(()));
    // two admitted requests of "a" in the window ending at 4 s
    assert_eq!(l.check_at("a", 4 * SEC), Err(6));
    assert_eq!(l.check_at("a", 5 * SEC), Err(5));
    // refused requests did not count: at 10 s only the one at 3 s remains
    assert_eq!(l.check_at("a", 10 * SEC), Ok(()));
    assert_eq!(l.check_at("a", 11 * SEC), Err(2));
}

#[test]
fn limiter_admits_after_the_advised_wait() {
    let mut l = RateLimiter::new(2, 60);
    assert_eq!(l.check_at("k", 0), Ok(()));
    assert_eq!(l.check_at("k", 20 * SEC), Ok(()));
    let wait = l.check_at("k", 25 * SEC).unwrap_err();
    assert_eq!(wait, 35);
    // other keys in between do not matter
    assert_eq!(l.check_at("x", 30 * SEC), Ok(()));
    assert!(l.check_at("k", 40 * SEC).is_err());
    assert_eq!(l.check_at("k", 25 * SEC + (wait + 1) * SEC), Ok(()));
}

#[test]
fn limiter_limit_stays_after_requests() {
    let mut l = RateLimiter::new(1, 60);
    let _ = l.check_at("k", 0);
    let _ = l.check_at("k", 1);
    let _ = l.check("k");
    assert_eq!(l.requests_per_minute(), 1);
}

#[test]
fn dedup_no_redelivery_with_other_keys_in_between() {
    let mut d = Dedup::new();
    assert!(d.see_at("e1", 0));
    assert!(d.see_at("e2", 10 * SEC));
    assert!(!d.see_at("e1", 20 * SEC));
    assert!(d.see_at("e3", 30 * SEC));
    assert!(!d.see_at("e1", 89 * SEC));
    assert!(d.see_at("e1", 90 * SEC));
}

#[test]
fn event_key_layout() {
    assert_eq!(event_key("meev/a/typing", b"{}"), "13:meev/a/typing{}");
    assert_eq!(event_key("", &[0xff]), "0:\u{ff}");
    assert_ne!(event_key("ab", b"c"), event_key("a", b"bc"));
}

#[test]
fn dedup_suppresses_only_the_echo_of_an_event() {
    let mut d = Dedup::new();
    // a locally delivered event, then its echo from the broker
    assert!(d.see_event("meev/c/messages", b"{\"id\":1}"));
    assert!(!d.see_event("meev/c/messages", b"{\"id\":1}"));
    // another event on the same topic is delivered
    assert!(d.see_event("meev/c/messages", b"{\"id\":2}"));
    // the same payload on another topic is another event
    assert!(d.see_event("meev/d/messages", b"{\"id\":1}"));
}
