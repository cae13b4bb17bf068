use std::collections::HashSet;

use hfi::config::{HfiConfig, HfiService};

fn set(v: &[u16]) -> HashSet<u16> {
    v.iter().copied().collect()
}

fn sorted(mut v: Vec<u16>) -> Vec<u16> {
    v.sort();
    v
}

fn config(entries: &[(u16, u64)]) -> HfiConfig {
    HfiConfig {
        checkers: entries
            .iter()
            .map(|&(port, delta)| HfiService { service: String::from("s"), port, delta })
            .collect(),
    }
}

#[test]
fn deltas_map_collapses_repeated_ports() {
    let c = config(&[(80, 5), (443, 7), (80, 2), (80, 9)]);
    let m = c.get_deltas_map();
    assert_eq!(m.len(), 2);
    assert_eq!(m[&80], vec![5, 2, 9]);
    assert_eq!(m[&443], vec![7]);
}

#[test]
fn deltas_map_of_empty_config() {
    assert!(config(&[]).get_deltas_map().is_empty());
}

#[test]
fn map_shape_matches_record_shape() {
    let c = HfiConfig::from_port_deltas(vec![(8080, vec![30, 40]), (9090, vec![]), (22, vec![1])]);
    assert_eq!(c.checkers.len(), 3);
    let m = c.get_deltas_map();
    assert_eq!(m.len(), 2);
    assert_eq!(m[&8080], vec![30, 40]);
    assert_eq!(m[&22], vec![1]);
    assert!(!m.contains_key(&9090));
}

#[test]
fn diff_adds_and_removes() {
    let mut watched = set(&[1, 2, 3]);
    let (added, removed) = config(&[(3, 0), (4, 0), (4, 1), (5, 0)]).get_diff_ports(&mut watched);
    assert_eq!(added, vec![4, 5]);
    assert_eq!(sorted(removed), vec![1, 2]);
    assert_eq!(watched, set(&[3, 4, 5]));
}

#[test]
fn diff_twice_is_idempotent() {
    let c = config(&[(10, 1), (20, 2)]);
    let mut watched = set(&[20, 30]);
    let (a1, r1) = c.get_diff_ports(&mut watched);
    assert_eq!(a1, vec![10]);
    assert_eq!(r1, vec![30]);
    let (a2, r2) = c.get_diff_ports(&mut watched);
    assert!(a2.is_empty());
    assert!(r2.is_empty());
}

#[test]
fn diff_against_empty_config_removes_all() {
    let mut watched = set(&[7, 8]);
    let (added, removed) = config(&[]).get_diff_ports(&mut watched);
    assert!(added.is_empty());
    assert_eq!(sorted(removed), vec![7, 8]);
    assert!(watched.is_empty());
}
