use filtermail::rate_limiter::{retain_recent, within, SendRateLimiter, ONE_MINUTE};

const SECOND: u128 = 1_000_000_000;

fn sends_of(limiter: &SendRateLimiter, address: &str) -> Vec<u128> {
    limiter
        .records
        .iter()
        .find(|record| record.address == address)
        .map(|record| record.timestamps.clone())
        .unwrap_or_default()
}

#[test]
fn window_is_one_minute() {
    assert_eq!(ONE_MINUTE, 60 * SECOND);
    assert!(within(100, 100));
    assert!(within(100, 100 + ONE_MINUTE));
    assert!(!within(100, 101 + ONE_MINUTE));
    // A send in the future counts.
    assert!(within(500, 100));
}

#[test]
fn recent_sends_are_kept_in_order() {
    let now = 1000 * SECOND;
    let times = vec![now - 61 * SECOND, now - 60 * SECOND, now - 90 * SECOND, now - SECOND, now + 5];
    assert_eq!(retain_recent(&times, now), vec![now - 60 * SECOND, now - SECOND, now + 5]);
    assert_eq!(retain_recent(&Vec::new(), now), Vec::<u128>::new());
}

#[test]
fn limiter_denies_the_send_above_the_limit() {
    let mut limiter = SendRateLimiter::new();
    let start = 1000 * SECOND;
    assert!(limiter.is_sending_allowed_at("u@ex.org", 2, start));
    assert!(limiter.is_sending_allowed_at("u@ex.org", 2, start + SECOND));
    // The third send of the minute is denied.
    assert!(!limiter.is_sending_allowed_at("u@ex.org", 2, start + 2 * SECOND));
    assert!(!limiter.is_sending_allowed_at("u@ex.org", 2, start + 59 * SECOND));
    assert!(!limiter.is_sending_allowed_at("u@ex.org", 2, start + 60 * SECOND));
    assert_eq!(sends_of(&limiter, "u@ex.org"), vec![start, start + SECOND]);
    // After a minute the first send no longer counts.
    assert!(limiter.is_sending_allowed_at("u@ex.org", 2, start + 60 * SECOND + 1));
    assert_eq!(sends_of(&limiter, "u@ex.org"), vec![start + SECOND, start + 60 * SECOND + 1]);
    assert!(!limiter.is_sending_allowed_at("u@ex.org", 2, start + 60 * SECOND + 2));
}

#[test]
fn limiter_with_limit_one_allows_one_send_per_minute() {
    let mut limiter = SendRateLimiter::new();
    assert!(limiter.is_sending_allowed_at("u@ex.org", 1, 0));
    assert!(!limiter.is_sending_allowed_at("u@ex.org", 1, 1));
    assert!(!limiter.is_sending_allowed_at("u@ex.org", 1, ONE_MINUTE));
    assert!(limiter.is_sending_allowed_at("u@ex.org", 1, ONE_MINUTE + 1));
}

#[test]
fn limiter_with_limit_zero_allows_nothing() {
    let mut limiter = SendRateLimiter::new();
    assert!(!limiter.is_sending_allowed_at("u@ex.org", 0, 0));
    assert!(!limiter.is_sending_allowed_at("u@ex.org", 0, 10 * ONE_MINUTE));
    assert_eq!(sends_of(&limiter, "u@ex.org"), Vec::<u128>::new());
}

#[test]
fn limiter_counts_each_address_by_itself() {
    let mut limiter = SendRateLimiter::new();
    assert!(limiter.is_sending_allowed_at("u@ex.org", 1, 10));
    assert!(limiter.is_sending_allowed_at("v@ex.org", 1, 11));
    assert!(!limiter.is_sending_allowed_at("u@ex.org", 1, 12));
    assert!(!limiter.is_sending_allowed_at("v@ex.org", 1, 13));
    assert_eq!(limiter.records.len(), 2);
}

#[test]
fn limiter_forgets_idle_addresses() {
    let mut limiter = SendRateLimiter::new();
    assert!(limiter.is_sending_allowed_at("u@ex.org", 5, 10));
    assert!(limiter.is_sending_allowed_at("v@ex.org", 5, 20 * SECOND));
    assert!(limiter.is_sending_allowed_at("w@ex.org", 5, 61 * SECOND));
    assert_eq!(sends_of(&limiter, "u@ex.org"), Vec::<u128>::new());
    assert_eq!(sends_of(&limiter, "v@ex.org"), vec![20 * SECOND]);
    assert_eq!(sends_of(&limiter, "w@ex.org"), vec![61 * SECOND]);
    assert_eq!(limiter.records.len(), 2);
}

#[test]
fn limiter_never_allows_more_than_the_limit_within_a_minute() {
    let max = 3;
    let mut limiter = SendRateLimiter::new();
    let mut allowed: Vec<u128> = Vec::new();
    // One request every seven seconds, for ten minutes.
    let mut now = 5 * SECOND;
    while now < 600 * SECOND {
        if limiter.is_sending_allowed_at("u@ex.org", max, now) {
            allowed.push(now);
        }
        let in_the_last_minute = allowed.iter().filter(|t| now - **t <= ONE_MINUTE).count();
        assert!(in_the_last_minute <= max);
        now += 7 * SECOND;
    }
    assert!(allowed.len() > max);
}

#[test]
fn limiter_reads_the_clock() {
    let mut limiter = SendRateLimiter::new();
    assert!(limiter.is_sending_allowed("u@ex.org", 2));
    assert!(limiter.is_sending_allowed("u@ex.org", 2));
    // The third send of the minute is denied.
    assert!(!limiter.is_sending_allowed("u@ex.org", 2));
    let sends = sends_of(&limiter, "u@ex.org");
    assert_eq!(sends.len(), 2);
    // The clock stands well behind the year 2001.
    assert!(sends[0] > 1_000_000_000 * SECOND);
    assert!(sends[0] <= sends[1]);
}

#[test]
fn default_limiter_remembers_nothing() {
    let mut limiter = SendRateLimiter::default();
    assert!(limiter.records.is_empty());
    assert!(limiter.is_sending_allowed_at("u@ex.org", 1, 7));
    assert_eq!(sends_of(&limiter, "u@ex.org"), vec![7]);
}

#[test]
fn limiter_is_bounded_only_on_a_clock_that_does_not_go_back() {
    // The clock reads 100 s, then 10 s, then 71 s and 72 s: a send that lies
    // in the future counts, but it is forgotten with the rest once the latest
    // send is too old.
    let mut limiter = SendRateLimiter::new();
    for now in [100 * SECOND, 10 * SECOND, 71 * SECOND, 72 * SECOND] {
        assert!(limiter.is_sending_allowed_at("u@ex.org", 2, now));
    }
    assert!(!limiter.is_sending_allowed_at("u@ex.org", 2, 73 * SECOND));
}
