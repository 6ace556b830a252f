use shooter_compute::simulation_manager::SimulationManager;
use shooter_compute::types::{SimulationConfig, SimulationResult};
use std::cell::Cell;

fn config(iterations: usize) -> SimulationConfig {
    let mut c = SimulationConfig::zero();
    c.iterations = iterations;
    c.gravity = 981;
    c
}

fn trajectory(speed: i64) -> SimulationResult {
    SimulationResult { x: vec![0, speed, 2 * speed], y: vec![0, 5, 0], time: vec![0, 1, 2] }
}

#[test]
fn fresh_manager_keeps_zero_config() {
    let mut m = SimulationManager::new();
    assert!(!m.update_config(SimulationConfig::zero()));
}

#[test]
fn changed_config_is_reported() {
    let mut m = SimulationManager::new();
    assert!(m.update_config(config(10)));
    assert!(!m.update_config(config(10)));
    assert!(m.update_config(config(20)));
}

#[test]
fn second_query_is_answered_from_the_cache() {
    let mut m = SimulationManager::new();
    let calls = Cell::new(0);
    let first = m.query_speed(7, |_c: SimulationConfig, s: i64| {
        calls.set(calls.get() + 1);
        trajectory(s)
    });
    let second = m.query_speed(7, |_c: SimulationConfig, _s: i64| -> SimulationResult {
        panic!("the cached trajectory should be used")
    });
    assert_eq!(calls.get(), 1);
    assert_eq!(first.x, vec![0, 7, 14]);
    assert_eq!(second.x, first.x);
    assert_eq!(second.y, first.y);
    assert_eq!(second.time, first.time);
}

#[test]
fn simulation_sees_the_current_config() {
    let mut m = SimulationManager::new();
    m.update_config(config(33));
    let r = m.query_speed(4, |c: SimulationConfig, s: i64| {
        SimulationResult { x: vec![s], y: vec![c.iterations as i64], time: vec![c.gravity] }
    });
    assert_eq!(r.y, vec![33]);
    assert_eq!(r.time, vec![981]);
}

#[test]
fn config_change_drops_trajectories() {
    let mut m = SimulationManager::new();
    m.query_speed(3, |_c: SimulationConfig, s: i64| trajectory(s));
    assert!(m.update_config(config(5)));
    let calls = Cell::new(0);
    m.query_speed(3, |_c: SimulationConfig, s: i64| {
        calls.set(calls.get() + 1);
        trajectory(s)
    });
    assert_eq!(calls.get(), 1);
}

#[test]
fn same_config_keeps_trajectories() {
    let mut m = SimulationManager::new();
    m.update_config(config(5));
    m.query_speed(3, |_c: SimulationConfig, s: i64| trajectory(s));
    assert!(!m.update_config(config(5)));
    let r = m.query_speed(3, |_c: SimulationConfig, _s: i64| -> SimulationResult {
        panic!("the cached trajectory should be used")
    });
    assert_eq!(r.x, vec![0, 3, 6]);
}

#[test]
fn clone_keeps_the_samples() {
    let t = trajectory(9);
    let c = t.clone();
    assert_eq!(c.x, t.x);
    assert_eq!(c.y, t.y);
    assert_eq!(c.time, t.time);
}

#[test]
fn zero_config_is_all_zero() {
    let c = SimulationConfig::zero();
    assert_eq!(c.launch_angle, 0);
    assert_eq!(c.gravity, 0);
    assert_eq!(c.simulation_time, 0);
    assert_eq!(c.iterations, 0);
}

#[test]
fn nan_config_always_counts_as_changed() {
    let mut m = SimulationManager::new();
    let mut c = config(10);
    c.drag_coefficient = shooter_compute::order_key::key_of_bits(f32::NAN.to_bits());
    assert!(m.update_config(c));
    assert!(m.update_config(c));
    assert!(c != c);
}

#[test]
fn configs_compare_as_floats() {
    assert!(config(3) == config(3));
    assert!(config(3) != config(4));
    let mut c = config(3);
    c.gravity = 982;
    assert!(c != config(3));
}
