use std::collections::HashSet;

use hfi::agent::{HfiActions, TickAction, Verdict};
use hfi::config::{HfiConfig, HfiService};

fn config(entries: &[(u16, u64)]) -> HfiConfig {
    HfiConfig {
        checkers: entries
            .iter()
            .map(|&(port, delta)| HfiService { service: format!("svc{port}"), port, delta })
            .collect(),
    }
}

fn set(v: &[u16]) -> HashSet<u16> {
    v.iter().copied().collect()
}

#[test]
fn new_agent_is_empty_and_due() {
    let a = HfiActions::new("example.org/", 5);
    assert_eq!(a.url, "http://example.org");
    assert!(a.session_cookie.is_none());
    assert!(a.watched_ports.is_empty());
    assert!(a.deltas_map.is_empty());
    assert_eq!(a.last_packet, 5);
    assert_eq!(a.next_action(5), TickAction::Fetch);
}

#[test]
fn url_for_appends_endpoint() {
    let a = HfiActions::new("https://host:8000//", 0);
    assert_eq!(a.url_for("/api/auth"), "https://host:8000/api/auth");
    assert_eq!(a.url_for("/api/hfi"), "https://host:8000/api/hfi");
}

#[test]
fn scenario_single_port_transform() {
    let mut a = HfiActions::new("server", 0);
    assert_eq!(a.next_action(0), TickAction::Fetch);
    let (added, removed) = a.update_config(Some(config(&[(8080, 30)])), 0);
    assert_eq!(added, vec![8080]);
    assert!(removed.is_empty());
    assert_eq!(a.filter(8080, 10_000), Verdict::Transform);
    assert_eq!(a.transform(8080, Some(1000), 10), Some(40));
    assert_eq!(a.filter(80, 10_500), Verdict::Pass);
}

#[test]
fn scenario_config_change_moves_port() {
    let mut a = HfiActions::new("server", 0);
    a.update_config(Some(config(&[(8080, 30)])), 0);
    assert_eq!(a.next_action(30_000), TickAction::Wait);
    assert_eq!(a.next_action(60_000), TickAction::Fetch);
    let (added, removed) = a.update_config(Some(config(&[(9090, 5)])), 60_000);
    assert_eq!(added, vec![9090]);
    assert_eq!(removed, vec![8080]);
    assert_eq!(a.watched_ports, set(&[9090]));
    assert_eq!(a.filter(8080, 61_000), Verdict::Pass);
    assert_eq!(a.filter(9090, 61_000), Verdict::Transform);
    assert_eq!(a.transform(9090, Some(7), 100), Some(105));
}

#[test]
fn scenario_bad_fetch_keeps_state() {
    let mut a = HfiActions::new("server", 0);
    a.update_config(Some(config(&[(8080, 30)])), 0);
    let ports = a.watched_ports.clone();
    let table = a.deltas_map.clone();
    let (added, removed) = a.update_config(None, 60_000);
    assert!(added.is_empty());
    assert!(removed.is_empty());
    assert_eq!(a.watched_ports, ports);
    assert_eq!(a.deltas_map, table);
    assert_eq!(a.last_update, Some(60_000));
    assert_eq!(a.next_action(60_001), TickAction::Wait);
}

#[test]
fn idle_watchdog_boundary() {
    let mut a = HfiActions::new("server", 0);
    a.filter(1, 1_000);
    assert!(a.still_active(1_000 + 59_000));
    assert!(a.still_active(1_000 + 59_999));
    assert!(!a.still_active(1_000 + 60_000));
    assert!(!a.still_active(1_000 + 120_000));
    assert!(a.still_active(0));
}

#[test]
fn refresh_cadence_one_fetch_per_window() {
    let mut a = HfiActions::new("server", 0);
    let mut fetches = 0;
    let mut now: u64 = 0;
    while now < 120_000 {
        if a.next_action(now) == TickAction::Fetch {
            fetches += 1;
            a.update_config(None, now);
        }
        now += 10;
    }
    assert_eq!(fetches, 2);
    assert_eq!(a.last_update, Some(60_000));
}

#[test]
fn classify_updates_last_packet_on_pass() {
    let mut a = HfiActions::new("server", 0);
    assert_eq!(a.filter(443, 42), Verdict::Pass);
    assert_eq!(a.last_packet, 42);
    a.update_config(Some(config(&[(443, 1)])), 50);
    assert_eq!(a.filter(443, 77), Verdict::Transform);
    assert_eq!(a.last_packet, 77);
}

#[test]
fn transform_without_option_or_delta() {
    let mut a = HfiActions::new("server", 0);
    a.update_config(Some(config(&[(22, 3)])), 0);
    assert_eq!(a.transform(22, None, 100), None);
    assert_eq!(a.transform(23, Some(9), 100), Some(9));
}

#[test]
fn transform_wraps_to_32_bits() {
    let mut a = HfiActions::new("server", 0);
    a.update_config(Some(config(&[(22, 10), (22, 99)])), 0);
    assert_eq!(a.transform(22, Some(0), 4_294_967_290), Some(4));
    assert_eq!(a.transform(22, Some(0), u64::MAX), Some(9));
}

#[test]
fn auth_takes_first_cookie() {
    let mut a = HfiActions::new("server", 0);
    let headers = vec![
        "HTTP/1.1 200 OK".to_string(),
        "Content-Type: text/plain".to_string(),
        "SET-Cookie:  sid=abc; Path=/ \r\n".to_string(),
        "set-cookie: sid=later".to_string(),
    ];
    a.auth(&headers);
    assert_eq!(a.session_cookie.as_deref(), Some("sid=abc; Path=/"));
    a.auth(&vec!["Server: x".to_string()]);
    assert!(a.session_cookie.is_none());
}

#[test]
fn failed_registration_is_retried() {
    let mut a = HfiActions::new("server", 0);
    let (added, _) = a.update_config(Some(config(&[(8080, 30), (22, 1)])), 0);
    assert_eq!(added, vec![8080, 22]);
    a.add_ports_failed(&vec![8080]);
    assert_eq!(a.watched_ports, set(&[22]));
    assert_eq!(a.filter(8080, 1), Verdict::Transform);
    let (added, removed) = a.update_config(Some(config(&[(8080, 30), (22, 1)])), 60_000);
    assert_eq!(added, vec![8080]);
    assert!(removed.is_empty());
}

#[test]
fn failed_deregistration_is_retried() {
    let mut a = HfiActions::new("server", 0);
    a.update_config(Some(config(&[(8080, 30)])), 0);
    let (_, removed) = a.update_config(Some(config(&[(9090, 5)])), 60_000);
    assert_eq!(removed, vec![8080]);
    a.remove_ports_failed(&removed);
    assert_eq!(a.watched_ports, set(&[8080, 9090]));
    let (added, removed) = a.update_config(Some(config(&[(9090, 5)])), 120_000);
    assert!(added.is_empty());
    assert_eq!(removed, vec![8080]);
}
