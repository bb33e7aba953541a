use azurejay::rate_limit::{ClientIp, RateLimiter};

#[test]
fn at_most_max_per_window() {
    let mut rl = RateLimiter::new(3, 100);
    let ip = ClientIp::V4(0x7f00_0001);
    let verdicts: Vec<bool> = (0..5).map(|i| rl.check(ip, 10 + i * 10)).collect();
    assert_eq!(verdicts, vec![true, true, true, false, false]);
}

#[test]
fn window_resets_after_it_elapses() {
    let mut rl = RateLimiter::new(1, 100);
    let ip = ClientIp::V6(1);
    assert!(rl.check(ip, 0));
    assert!(!rl.check(ip, 100));
    assert!(rl.check(ip, 101));
    assert!(!rl.check(ip, 150));
}

#[test]
fn clients_are_counted_apart() {
    let mut rl = RateLimiter::new(1, 1000);
    assert!(rl.check(ClientIp::V4(1), 5));
    assert!(rl.check(ClientIp::V4(2), 5));
    assert!(rl.check(ClientIp::V6(1), 5));
    assert!(!rl.check(ClientIp::V4(1), 6));
}

#[test]
fn zero_limit_refuses_all() {
    let mut rl = RateLimiter::new(0, 10);
    assert!(!rl.check(ClientIp::V4(9), 0));
}

#[test]
fn earlier_clock_counts_as_no_time() {
    let mut rl = RateLimiter::new(2, 10);
    let ip = ClientIp::V4(3);
    assert!(rl.check(ip, 50));
    assert!(rl.check(ip, 40));
    assert!(!rl.check(ip, 45));
}

#[test]
fn interleaved_clients_are_counted_apart() {
    let mut rl = RateLimiter::new(2, 100);
    let a = ClientIp::V4(1);
    let b = ClientIp::V6(1);
    assert!(rl.check(a, 0));
    assert!(rl.check(b, 1));
    assert!(rl.check(a, 2));
    assert!(rl.check(b, 3));
    assert!(!rl.check(a, 4));
    assert!(!rl.check(b, 5));
    assert!(!rl.check(a, 100));
    assert!(rl.check(a, 101));
}
