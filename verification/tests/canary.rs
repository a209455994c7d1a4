use std::time::Duration;
use yggdrasil::addr::{IpAddr, Ipv4Addr, SocketAddr};
use yggdrasil::canary::{CanaryArmTable, CANARY_TOKEN_LEN};
use yggdrasil::rule::Protocol;

fn listen(port: u16) -> SocketAddr {
    SocketAddr::new(IpAddr::V4(Ipv4Addr::new(127, 0, 0, 1)), port)
}

fn token(seed: u8) -> [u8; CANARY_TOKEN_LEN] {
    [seed; CANARY_TOKEN_LEN]
}

fn secs(n: u64) -> u64 {
    Duration::from_secs(n).as_nanos() as u64
}

fn millis(n: u64) -> u64 {
    Duration::from_millis(n).as_nanos() as u64
}

#[test]
fn cold_table_is_not_armed() {
    let table = CanaryArmTable::new();
    assert!(!table.is_armed(listen(2222), Protocol::Tcp));
    assert!(!table.match_token(listen(2222), Protocol::Tcp, &token(0)));
}

#[test]
fn arm_then_match_succeeds() {
    let mut table = CanaryArmTable::new();
    let tok = token(0xAB);
    table.arm(listen(2222), Protocol::Tcp, tok, secs(5));
    assert!(table.is_armed(listen(2222), Protocol::Tcp));
    assert!(table.match_token(listen(2222), Protocol::Tcp, &tok));
}

#[test]
fn unrelated_protocol_does_not_match() {
    let mut table = CanaryArmTable::new();
    table.arm(listen(2222), Protocol::Tcp, token(0xAB), secs(5));
    assert!(!table.is_armed(listen(2222), Protocol::Udp));
}

#[test]
fn unrelated_listen_does_not_match() {
    let mut table = CanaryArmTable::new();
    table.arm(listen(2222), Protocol::Tcp, token(0xAB), secs(5));
    assert!(!table.is_armed(listen(3333), Protocol::Tcp));
}

#[test]
fn wrong_token_does_not_match_but_is_armed_still_true() {
    let mut table = CanaryArmTable::new();
    table.arm(listen(2222), Protocol::Tcp, token(0xAB), secs(5));
    assert!(table.is_armed(listen(2222), Protocol::Tcp));
    assert!(!table.match_token(listen(2222), Protocol::Tcp, &token(0xCD)));
}

#[test]
fn multiple_concurrent_arms_on_same_rule_each_match() {
    let mut table = CanaryArmTable::new();
    let t1 = token(0x11);
    let t2 = token(0x22);
    table.arm(listen(2222), Protocol::Tcp, t1, secs(5));
    table.arm(listen(2222), Protocol::Tcp, t2, secs(5));
    assert!(table.match_token(listen(2222), Protocol::Tcp, &t1));
    assert!(table.match_token(listen(2222), Protocol::Tcp, &t2));
    assert!(!table.match_token(listen(2222), Protocol::Tcp, &token(0x33)));
    assert_eq!(table.active_count(), 2);
}

#[test]
fn disarm_removes_specific_token_only() {
    let mut table = CanaryArmTable::new();
    let t1 = token(0x11);
    let t2 = token(0x22);
    table.arm(listen(2222), Protocol::Tcp, t1, secs(5));
    table.arm(listen(2222), Protocol::Tcp, t2, secs(5));
    table.disarm(listen(2222), Protocol::Tcp, &t1);
    assert!(!table.match_token(listen(2222), Protocol::Tcp, &t1));
    assert!(table.match_token(listen(2222), Protocol::Tcp, &t2));
    table.disarm(listen(2222), Protocol::Tcp, &t2);
    assert!(!table.is_armed(listen(2222), Protocol::Tcp));
    assert_eq!(table.active_count(), 0);
}

#[test]
fn expired_arm_is_no_longer_armed() {
    let mut table = CanaryArmTable::new();
    let tok = token(0xAB);
    table.arm_at(listen(2222), Protocol::Tcp, tok, millis(1), 0);
    assert!(!table.is_armed_at(listen(2222), Protocol::Tcp, millis(10)));
    assert!(!table.match_token_at(listen(2222), Protocol::Tcp, &tok, millis(10)));
}

#[test]
fn same_token_reapplied_refreshes_ttl() {
    let mut table = CanaryArmTable::new();
    let tok = token(0xAB);
    table.arm_at(listen(2222), Protocol::Tcp, tok, millis(50), 0);
    assert_eq!(table.active_count_at(0), 1);
    table.arm_at(listen(2222), Protocol::Tcp, tok, secs(5), 0);
    assert_eq!(table.active_count_at(0), 1);
    assert!(table.match_token_at(listen(2222), Protocol::Tcp, &tok, millis(100)));
}

#[test]
fn purge_expired_clears_empty_shards() {
    let mut table = CanaryArmTable::new();
    table.arm_at(listen(2222), Protocol::Tcp, token(0x11), millis(1), 0);
    table.arm_at(listen(3333), Protocol::Udp, token(0x22), secs(5), 0);
    table.purge_expired_at(millis(10));
    assert!(!table.is_armed_at(listen(2222), Protocol::Tcp, millis(10)));
    assert!(table.is_armed_at(listen(3333), Protocol::Udp, millis(10)));
    assert_eq!(table.active_count_at(millis(10)), 1);
}

#[test]
fn arm_purges_stale_entries_on_insert() {
    let mut table = CanaryArmTable::new();
    table.arm_at(listen(2222), Protocol::Tcp, token(0x11), millis(1), 0);
    table.arm_at(listen(2222), Protocol::Tcp, token(0x22), secs(5), millis(10));
    assert_eq!(table.active_count_at(millis(10)), 1);
}

#[test]
fn expired_arm_neither_arms_nor_matches() {
    let mut table = CanaryArmTable::new();
    let tok = token(7);
    table.arm_at(listen(1), Protocol::Udp, tok, 100, 1_000);
    assert!(table.match_token_at(listen(1), Protocol::Udp, &tok, 1_099));
    assert!(!table.match_token_at(listen(1), Protocol::Udp, &tok, 1_100));
    assert!(!table.is_armed_at(listen(1), Protocol::Udp, 1_100));
}

#[test]
fn rearming_same_token_refreshes_expiry_in_place() {
    let mut table = CanaryArmTable::new();
    let tok = token(9);
    table.arm_at(listen(1), Protocol::Tcp, tok, 100, 0);
    table.arm_at(listen(1), Protocol::Tcp, tok, 100, 50);
    assert_eq!(table.active_count_at(60), 1);
    assert!(table.match_token_at(listen(1), Protocol::Tcp, &tok, 149));
}

#[test]
fn arming_drops_lapsed_arms_of_that_listener() {
    let mut table = CanaryArmTable::new();
    table.arm_at(listen(1), Protocol::Tcp, token(1), 10, 0);
    table.arm_at(listen(1), Protocol::Tcp, token(2), 10, 20);
    assert!(!table.match_token_at(listen(1), Protocol::Tcp, &token(1), 5));
    assert!(table.match_token_at(listen(1), Protocol::Tcp, &token(2), 25));
}

#[test]
fn purge_keeps_live_arms_everywhere() {
    let mut table = CanaryArmTable::new();
    table.arm_at(listen(1), Protocol::Tcp, token(1), 10, 0);
    table.arm_at(listen(1), Protocol::Tcp, token(2), 50, 0);
    table.arm_at(listen(2), Protocol::Tcp, token(3), 10, 0);
    assert_eq!(table.active_count_at(0), 3);
    table.purge_expired_at(20);
    assert_eq!(table.active_count_at(0), 1);
    assert!(table.match_token_at(listen(1), Protocol::Tcp, &token(2), 20));
    table.purge_expired_at(20);
    assert_eq!(table.active_count_at(0), 1);
    table.purge_expired();
    assert!(table.now() < u64::MAX);
}

#[test]
fn expiry_saturates_at_the_end_of_the_clock() {
    let mut table = CanaryArmTable::new();
    table.arm_at(listen(1), Protocol::Https, token(1), u64::MAX, 5);
    assert!(table.match_token_at(listen(1), Protocol::Https, &token(1), u64::MAX - 1));
}

#[test]
fn rearming_resets_to_an_earlier_expiry_and_counts_once() {
    let mut table = CanaryArmTable::new();
    table.arm_at(listen(1), Protocol::Tcp, token(1), 100, 0);
    table.arm_at(listen(1), Protocol::Tcp, token(2), 100, 0);
    table.arm_at(listen(1), Protocol::Tcp, token(1), 10, 50);
    assert_eq!(table.active_count_at(50), 2);
    assert!(table.match_token_at(listen(1), Protocol::Tcp, &token(1), 59));
    assert!(!table.match_token_at(listen(1), Protocol::Tcp, &token(1), 60));
    assert!(table.match_token_at(listen(1), Protocol::Tcp, &token(2), 99));
    assert_eq!(table.active_count_at(60), 1);
}
