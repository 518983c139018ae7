//! The admission limiter: steady rates, bursts, pruning, the root bypass,
//! and address normalization.

use surreal_core::ipaddr::normalize_ip;
use surreal_core::limiter::Limiter;
use surreal_core::options::{Auth, Session};

const RATE_LIMIT: u64 = 3;
const RATE_LIMIT_BURST: u64 = 5;

fn limiter() -> Limiter {
    Limiter::new(RATE_LIMIT, RATE_LIMIT_BURST)
}

fn ip_session(ip: &str) -> Session {
    Session { au: Auth::No, ip: Some(ip.to_string()) }
}

#[test]
fn rate() {
    let session = ip_session("0.0.0.0");

    // Returns true iff requests at this rate are all allowed
    let is_allowed = |rate: f64| {
        let mut limiter = limiter();
        let mut now: u64 = 1;

        for _ in 0..RATE_LIMIT_BURST * 1000 {
            if !limiter.should_allow_at(&session, now) {
                return false;
            }
            now += 1 + (1_000_000_000 as f64 / rate) as u64
        }
        true
    };

    for ten_times_rate in
        (RATE_LIMIT.saturating_sub(10) + 1) * 10..=RATE_LIMIT.saturating_add(10) * 10
    {
        let rate = ten_times_rate as f64 * 0.1;
        assert_eq!(is_allowed(rate), rate <= RATE_LIMIT as f64, "rate: {:.1}", rate);
    }
}

#[test]
fn burst() {
    let mut limiter = limiter();
    let mut now: u64 = 1;

    let session = ip_session("0.0.0.0");

    for i in 0..RATE_LIMIT_BURST * 1000 {
        // Essentially zero time has passed
        assert_eq!(limiter.should_allow_at(&session, now), i <= RATE_LIMIT_BURST, "{i}");
        now += 1;
    }
}

#[test]
fn expiry() {
    let mut limiter = Limiter::new(1000, 100);

    let mut x: u64 = 1;
    let mut now: u64 = 1;

    for _ in 0..1000 {
        x = x.wrapping_mul(6364136223846793005).wrapping_add(1442695040888963407);
        let ip = format!(
            "{}.{}.{}.{}",
            x as u8,
            (x >> 8) as u8,
            (x >> 16) as u8,
            (x >> 24) as u8
        );
        let session = ip_session(&ip);

        assert!(limiter.should_allow_at(&session, now));

        now += 1_000_000_000;

        let len = limiter.entry_count();
        assert!(len < 100, "{}", len);
    }
}

#[test]
fn burst_then_reset() {
    // rate 3/s, burst 5: six requests in the first nanoseconds are all
    // allowed, the seventh is denied; the six admissions push the limit out
    // to two seconds, after which the bucket resets.
    let mut limiter = limiter();
    let session = ip_session("0.0.0.0");
    for t in 1..=6u64 {
        assert!(limiter.should_allow_at(&session, t), "{t}");
    }
    assert!(!limiter.should_allow_at(&session, 7));
    assert!(limiter.should_allow_at(&session, 2_000_000_001));
}

#[test]
fn root_bypass() {
    let mut limiter = limiter();
    let session = Session { au: Auth::Kv, ip: Some("0.0.0.0".to_string()) };
    for t in 0..1000u64 {
        assert!(limiter.should_allow_at(&session, t));
    }
    assert_eq!(limiter.entry_count(), 0);
}

#[test]
fn namespace_sessions_share_a_key() {
    let mut limiter = limiter();
    let a = Session { au: Auth::Ns("prod".to_string()), ip: Some("1.1.1.1".to_string()) };
    let b = Session { au: Auth::Db("prod".to_string(), "d".to_string()), ip: None };
    for t in 1..=6u64 {
        let s = if t % 2 == 0 { &a } else { &b };
        assert!(limiter.should_allow_at(s, t), "{t}");
    }
    assert!(!limiter.should_allow_at(&a, 7));
    assert_eq!(limiter.entry_count(), 1);
}

#[test]
fn ipv6_prefix_keys() {
    // any two IPv6 addresses sharing a /48 prefix map to the same key
    let a = normalize_ip("fd79:cdcb:38cc:9dd:f686:e06d:32f3:c123");
    let b = normalize_ip("fd79:cdcb:38cc:1111:2222:3333:4444:5555");
    assert_eq!(a, b);
    assert_eq!(a, "fd79:cdcb:38cc::");

    let c = normalize_ip("fd79:cdcb:38cd:9dd:f686:e06d:32f3:c123");
    assert_ne!(a, c);

    assert_eq!(normalize_ip("::1"), "::");
    assert_eq!(normalize_ip("2001:db8::1"), "2001:db8::");
}

#[test]
fn ipv4_keys_drop_ports() {
    assert_eq!(normalize_ip("1.2.3.4"), "1.2.3.4");
    assert_eq!(normalize_ip("1.2.3.4:8080"), "1.2.3.4");
    assert_eq!(normalize_ip("not an address"), "not an address");
}

#[test]
fn ipv6_bursts_share_the_prefix_bucket() {
    let mut limiter = limiter();
    let a = ip_session("fd79:cdcb:38cc:9dd:f686:e06d:32f3:c123");
    let b = ip_session("fd79:cdcb:38cc:ffff::1");
    for t in 1..=6u64 {
        let s = if t % 2 == 0 { &a } else { &b };
        assert!(limiter.should_allow_at(s, t), "{t}");
    }
    assert!(!limiter.should_allow_at(&b, 7));
    assert_eq!(limiter.entry_count(), 1);
}
