use easyshare::client::{
    peer_address, sweep_interval, ConnectionPool, KEEPALIVE_SECS, MAX_SWEEP_NANOS, MIN_SWEEP_NANOS,
};
use easyshare::peer_discovery::online_route_indices;

const SECOND: u128 = 1_000_000_000;

#[test]
fn peer_addresses() {
    assert_eq!(peer_address("10.144.144.2", 12000), "10.144.144.2:12000");
    assert_eq!(peer_address("fe80::1", 0), "fe80::1:0");
    assert_eq!(peer_address("h", 65535), "h:65535");
    assert_eq!(KEEPALIVE_SECS, 120);
}

#[test]
fn sweep_interval_is_a_quarter_of_the_idle_time_within_bounds() {
    assert_eq!(sweep_interval(60 * SECOND), 15_000_000_000);
    assert_eq!(sweep_interval(4 * SECOND), MIN_SWEEP_NANOS);
    assert_eq!(sweep_interval(0), MIN_SWEEP_NANOS);
    assert_eq!(sweep_interval(20 * SECOND), 5_000_000_000);
    assert_eq!(sweep_interval(120 * SECOND + 3), 30_000_000_000);
    assert_eq!(sweep_interval(1000 * SECOND), MAX_SWEEP_NANOS);
    assert_eq!(sweep_interval(u128::MAX), MAX_SWEEP_NANOS);
    assert_eq!(sweep_interval(50 * SECOND + 3), 12_500_000_000);
    let d = std::time::Duration::from_nanos(50_000_000_003) / 4;
    assert_eq!(sweep_interval(50 * SECOND + 3) as u128, d.as_nanos());
}

#[test]
fn connections_are_reused_per_address() {
    let mut pool: ConnectionPool<&str> = ConnectionPool::new();
    assert_eq!(pool.len(), 0);
    assert!(!pool.contains("a:1"));
    pool.insert("a:1".to_string(), "conn-a", 10);
    pool.insert("b:1".to_string(), "conn-b", 20);
    assert_eq!(pool.len(), 2);
    assert!(pool.contains("a:1"));
    assert_eq!(pool.take("a:1"), Some(("conn-a", 10)));
    assert!(!pool.contains("a:1"));
    assert_eq!(pool.take("a:1"), None);
    pool.insert("a:1".to_string(), "conn-a", 30);
    pool.insert("a:1".to_string(), "conn-a2", 40);
    assert_eq!(pool.len(), 2);
    assert_eq!(pool.take("a:1"), Some(("conn-a2", 40)));
}

#[test]
fn idle_connections_are_swept() {
    let mut pool: ConnectionPool<u32> = ConnectionPool::new();
    pool.insert("old".to_string(), 1, 0);
    pool.insert("recent".to_string(), 2, 90);
    pool.insert("edge".to_string(), 3, 40);
    pool.insert("future".to_string(), 4, 200);
    // idle limit 60 at time 100: "old" (100) and "edge" (60) are idle
    assert_eq!(pool.sweep(100, 60), 2);
    assert_eq!(pool.len(), 2);
    assert!(!pool.contains("old") && !pool.contains("edge"));
    assert!(pool.contains("recent") && pool.contains("future"));
    assert_eq!(pool.sweep(100, 60), 0);
    assert_eq!(pool.sweep(1000, 1), 2);
    assert_eq!(pool.len(), 0);
}

#[test]
fn routes_without_virtual_ip_are_dropped() {
    let addrs = vec![
        Some("10.0.0.1".to_string()),
        None,
        Some(String::new()),
        Some("10.0.0.4".to_string()),
    ];
    assert_eq!(online_route_indices(&addrs), vec![0, 3]);
    assert!(online_route_indices(&Vec::new()).is_empty());
}
