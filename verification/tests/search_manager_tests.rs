use shooter_compute::order_key::minus_one_key;
use shooter_compute::search_manager::{
    height_lookup, locate_samples, strictly_between, DiscriminatedResult, HeightLookup,
    QueryError, SampleLookup, SearchManager, Span,
};
use shooter_compute::types::{SimulationConfig, SimulationResult};
use std::cell::Cell;

fn arc(_c: SimulationConfig, speed: i64) -> SimulationResult {
    SimulationResult { x: vec![0, 10, 20, 30], y: vec![0, speed, speed, 0], time: vec![0, 1, 2, 3] }
}

fn lerp(s: Span) -> i64 {
    s.y_below + (s.y_above - s.y_below) * (s.distance - s.x_below) / (s.x_above - s.x_below)
}

fn midpoint(a: i64, b: i64) -> i64 {
    (a + b) / 2
}

fn result(x: Vec<i64>, y: Vec<i64>) -> SimulationResult {
    let time = (0..x.len() as i64).collect();
    SimulationResult { x, y, time }
}

#[test]
fn discriminate_below_above_inside() {
    let m = SearchManager::new();
    assert_eq!(m.discriminate_height(1, 2, 5), DiscriminatedResult::Low);
    assert_eq!(m.discriminate_height(6, 2, 5), DiscriminatedResult::High);
    assert_eq!(m.discriminate_height(2, 2, 5), DiscriminatedResult::Hit);
    assert_eq!(m.discriminate_height(5, 2, 5), DiscriminatedResult::Hit);
    assert_eq!(m.discriminate_height(3, 2, 5), DiscriminatedResult::Hit);
}

#[test]
fn empty_window_is_low_first() {
    let m = SearchManager::new();
    assert_eq!(m.discriminate_height(4, 5, 2), DiscriminatedResult::Low);
    assert_eq!(m.discriminate_height(7, 5, 2), DiscriminatedResult::High);
}

#[test]
fn locate_past_the_last_sample() {
    assert_eq!(locate_samples(&vec![0, 2, 4], 5), SampleLookup::Beyond);
}

#[test]
fn locate_before_all_samples() {
    assert_eq!(locate_samples(&vec![3, 4, 6], 1), SampleLookup::NoSampleBelow);
}

#[test]
fn locate_between_samples() {
    assert_eq!(locate_samples(&vec![0, 2, 4, 6], 3), SampleLookup::Bracket { below: 1, above: Some(2) });
}

#[test]
fn locate_on_a_sample() {
    assert_eq!(locate_samples(&vec![0, 2, 4, 6], 4), SampleLookup::Bracket { below: 2, above: Some(2) });
}

#[test]
fn locate_skips_zero_samples_for_the_upper_one() {
    assert_eq!(locate_samples(&vec![0, 0, 3], 0), SampleLookup::Bracket { below: 1, above: Some(2) });
}

#[test]
fn locate_all_zero_samples() {
    assert_eq!(locate_samples(&vec![0, 0, 0], 0), SampleLookup::Bracket { below: 2, above: Some(2) });
}

#[test]
fn locate_upper_sample_is_the_first_past_the_distance() {
    assert_eq!(locate_samples(&vec![1, 5, 3, 7], 4), SampleLookup::Bracket { below: 2, above: Some(1) });
}

#[test]
fn height_past_the_end_is_minus_one() {
    let r = result(vec![0, 10], vec![5, 0]);
    assert_eq!(height_lookup(&r, 20), Ok(HeightLookup::Known(minus_one_key())));
}

#[test]
fn height_on_a_sample() {
    let r = result(vec![0, 10, 20], vec![1, 7, 3]);
    assert_eq!(height_lookup(&r, 10), Ok(HeightLookup::Known(7)));
}

#[test]
fn height_between_samples() {
    let r = result(vec![0, 10, 20], vec![1, 7, 3]);
    assert_eq!(
        height_lookup(&r, 15),
        Ok(HeightLookup::Interpolate(Span { x_below: 10, x_above: 20, y_below: 7, y_above: 3, distance: 15 }))
    );
}

#[test]
fn height_errors() {
    assert_eq!(height_lookup(&result(vec![], vec![]), 1), Err(QueryError::NoSamples));
    assert_eq!(height_lookup(&result(vec![5, 9], vec![1, 2]), 1), Err(QueryError::NoSampleBelow));
    assert_eq!(height_lookup(&result(vec![0, 10], vec![1]), 5), Err(QueryError::MissingHeight));
    assert_eq!(height_lookup(&result(vec![0, 10], vec![]), 0), Err(QueryError::MissingHeight));
    // A zero sample is passed over as the upper one, so the span reaches the next sample.
    assert_eq!(height_lookup(&result(vec![0, 10], vec![4]), 0), Err(QueryError::MissingHeight));
    assert_eq!(height_lookup(&result(vec![5, 10], vec![4]), 5), Ok(HeightLookup::Known(4)));
}

#[test]
fn strictly_between_either_order() {
    assert!(strictly_between(5, 0, 10));
    assert!(strictly_between(5, 10, 0));
    assert!(!strictly_between(0, 0, 10));
    assert!(!strictly_between(10, 0, 10));
    assert!(!strictly_between(11, 0, 10));
}

#[test]
fn bisection_finds_a_hit() {
    let mut m = SearchManager::new();
    m.update_max_speed(100);
    assert_eq!(m.query_distance(15, 40, 60, &arc, &lerp, &midpoint), Ok(50));
}

#[test]
fn bisection_narrows_down() {
    let mut m = SearchManager::new();
    m.update_max_speed(100);
    // 50 is low, 75 and 62 are high, 56 is low, 59 hits.
    assert_eq!(m.query_distance(15, 58, 60, &arc, &lerp, &midpoint), Ok(59));
}

#[test]
fn unreachable_window_gives_minus_one() {
    let mut m = SearchManager::new();
    m.update_max_speed(100);
    assert_eq!(m.query_distance(15, 200, 300, &arc, &lerp, &midpoint), Ok(minus_one_key()));
}

#[test]
fn answers_are_kept() {
    let mut m = SearchManager::new();
    m.update_max_speed(100);
    assert_eq!(m.query_distance(15, 40, 60, &arc, &lerp, &midpoint), Ok(50));
    let never = |_c: SimulationConfig, _s: i64| -> SimulationResult { panic!("answer should be kept") };
    assert_eq!(m.query_distance(15, 0, 1, &never, &lerp, &midpoint), Ok(50));
}

#[test]
fn top_speed_change_keeps_answers() {
    let mut m = SearchManager::new();
    m.update_max_speed(100);
    assert_eq!(m.query_distance(15, 40, 60, &arc, &lerp, &midpoint), Ok(50));
    m.update_max_speed(10);
    assert_eq!(m.query_distance(15, 40, 60, &arc, &lerp, &midpoint), Ok(50));
}

#[test]
fn config_change_drops_answers() {
    let mut m = SearchManager::new();
    m.update_max_speed(100);
    assert_eq!(m.query_distance(15, 40, 60, &arc, &lerp, &midpoint), Ok(50));
    let mut c = SimulationConfig::zero();
    c.iterations = 50;
    m.update_config(c);
    let calls = Cell::new(0);
    let counted = |cfg: SimulationConfig, s: i64| {
        calls.set(calls.get() + 1);
        arc(cfg, s)
    };
    assert_eq!(m.query_distance(15, 40, 60, &counted, &lerp, &midpoint), Ok(50));
    assert_eq!(calls.get(), 2);
}

#[test]
fn same_config_keeps_answers() {
    let mut m = SearchManager::new();
    m.update_max_speed(100);
    assert_eq!(m.query_distance(15, 40, 60, &arc, &lerp, &midpoint), Ok(50));
    m.update_config(SimulationConfig::zero());
    let never = |_c: SimulationConfig, _s: i64| -> SimulationResult { panic!("answer should be kept") };
    assert_eq!(m.query_distance(15, 40, 60, &never, &lerp, &midpoint), Ok(50));
}

#[test]
fn stalled_search_is_reported_and_changes_nothing() {
    let mut m = SearchManager::new();
    m.update_max_speed(100);
    let lower_end = |a: i64, _b: i64| a;
    assert_eq!(m.query_distance(15, 40, 60, &arc, &lerp, &lower_end), Err(QueryError::SearchStalled));
    assert_eq!(m.query_distance(15, 40, 60, &arc, &lerp, &midpoint), Ok(50));
}

#[test]
fn trajectory_errors_are_reported() {
    let mut m = SearchManager::new();
    m.update_max_speed(100);
    let empty = |_c: SimulationConfig, _s: i64| SimulationResult { x: vec![], y: vec![], time: vec![] };
    assert_eq!(m.query_distance(15, 40, 60, &empty, &lerp, &midpoint), Err(QueryError::NoSamples));
    assert_eq!(m.query_distance(-5, 40, 60, &arc, &lerp, &midpoint), Err(QueryError::NoSampleBelow));
}

#[test]
fn top_speed_hit_still_bisects() {
    let mut m = SearchManager::new();
    m.update_max_speed(100);
    // The top speed itself hits, but the answer comes from the bisection.
    assert_eq!(m.query_distance(15, 50, 100, &arc, &lerp, &midpoint), Ok(50));
}

fn nan_key() -> i64 {
    shooter_compute::order_key::key_of_bits(f32::NAN.to_bits())
}

#[test]
fn nan_height_is_a_hit() {
    let m = SearchManager::new();
    assert_eq!(m.discriminate_height(nan_key(), 2, 5), DiscriminatedResult::Hit);
}

#[test]
fn nan_window_never_rejects() {
    let m = SearchManager::new();
    assert_eq!(m.discriminate_height(1, nan_key(), nan_key()), DiscriminatedResult::Hit);
}

#[test]
fn locate_with_no_sample_past_the_distance() {
    // The last sample is NaN: it is neither before nor past the distance.
    assert_eq!(locate_samples(&vec![0, 2, nan_key()], 3), SampleLookup::Bracket { below: 1, above: None });
}

#[test]
fn locate_at_a_nan_distance() {
    assert_eq!(locate_samples(&vec![0, 2, 4], nan_key()), SampleLookup::NoSampleBelow);
}

#[test]
fn height_without_upper_sample() {
    let r = result(vec![0, 2, nan_key()], vec![1, 2, 3]);
    assert_eq!(height_lookup(&r, 3), Err(QueryError::NoSampleAbove));
    // With the lower sample at zero, the missing upper sample counts as zero too.
    let r = result(vec![0, nan_key()], vec![7, 3]);
    assert_eq!(height_lookup(&r, 1), Ok(HeightLookup::Known(7)));
}

#[test]
fn equal_infinite_samples_are_interpolated() {
    let inf = shooter_compute::order_key::key_of_bits(f32::INFINITY.to_bits());
    let r = result(vec![0, inf, inf], vec![1, 2, 3]);
    assert_eq!(
        height_lookup(&r, inf),
        Ok(HeightLookup::Interpolate(Span { x_below: inf, x_above: inf, y_below: 3, y_above: 2, distance: inf }))
    );
}
