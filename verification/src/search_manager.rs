//! The search for the wheel speed that puts a shot at a given distance
//! between two heights, with the answers kept per distance.
//!
//! Heights, distances and speeds are order keys; every comparison that
//! stands for a float comparison goes through the float comparisons of
//! `order_key`, so a NaN compares as it does among floats.
use std::collections::HashMap;
use vstd::prelude::*;
use crate::order_key::{
    difference_is_zero, ieee_eq, ieee_lt, key_eq, key_le, key_lt,
    lemma_key_comparisons_are_float_comparisons, minus_one_key, spec_difference_is_zero, spec_eq,
    spec_is_nan, spec_key_of_bits, spec_le, spec_lt, MINUS_ONE_BITS,
};
use crate::simulation_manager::SimulationManager;
use crate::types::{spec_config_eq, SimulationConfig, SimulationResult, TrajectoryView};

verus! {

broadcast use vstd::std_specs::hash::group_hash_axioms;

/// The key of `-1.0`: the height of a shot that falls short of the distance,
/// and the speed answered for a distance that no speed reaches.
pub open spec fn spec_minus_one() -> int {
    spec_key_of_bits(MINUS_ONE_BITS)
}

/// How a height compares with the window `[min_height, max_height]`.
#[derive(Clone, Copy, Debug, PartialEq, Eq, Structural)]
pub enum DiscriminatedResult {
    Low,
    High,
    Hit,
}

/// Below the window is `Low`, above it `High`, and otherwise `Hit` (bounds
/// included), the comparisons being those of floats: a NaN height is `Hit`.
pub open spec fn spec_discriminate(height: i64, min_height: i64, max_height: i64) -> DiscriminatedResult {
    if spec_lt(height, min_height) {
        DiscriminatedResult::Low
    } else if spec_lt(max_height, height) {
        DiscriminatedResult::High
    } else {
        DiscriminatedResult::Hit
    }
}

/// Why no speed could be given for a distance.
#[derive(Clone, Copy, Debug, PartialEq, Eq, Structural)]
pub enum QueryError {
    /// A simulated trajectory had no sample at all.
    NoSamples,
    /// No sample of a trajectory lay at or before the distance.
    NoSampleBelow,
    /// A height had to be read between two samples, and no sample lay at or
    /// past the distance.
    NoSampleAbove,
    /// A trajectory had fewer heights than the samples that were needed.
    MissingHeight,
    /// The search interval stopped shrinking before a speed hit the window.
    SearchStalled,
}

/// The two samples that bracket the distance, for a height read between them.
#[derive(Clone, Copy, Debug, PartialEq, Eq, Structural)]
pub struct Span {
    pub x_below: i64,
    pub x_above: i64,
    pub y_below: i64,
    pub y_above: i64,
    pub distance: i64,
}

/// Where the distance falls among the samples of a trajectory.
#[derive(Clone, Copy, Debug, PartialEq, Eq, Structural)]
pub enum SampleLookup {
    /// The last sample lies before the distance.
    Beyond,
    /// No sample lies at or before the distance.
    NoSampleBelow,
    /// `below` is the last sample at or before the distance and `above` the
    /// sample taken as the one past it, when there is one.
    Bracket { below: usize, above: Option<usize> },
}

/// The height at the distance, or the span that it is to be read from.
#[derive(Clone, Copy, Debug, PartialEq, Eq, Structural)]
pub enum HeightLookup {
    Known(i64),
    Interpolate(Span),
}

/// `i` is the last sample at or before the distance.
pub open spec fn is_last_at_or_below(xs: Seq<i64>, distance: i64, i: int) -> bool {
    &&& 0 <= i < xs.len()
    &&& spec_le(xs[i], distance)
    &&& forall|k: int| i < k < xs.len() ==> !spec_le(#[trigger] xs[k], distance)
}

/// `j` is the sample taken as the one past the distance: the first sample at or
/// past the distance that is not zero, or, when all of them are zero, the last
/// of them.
pub open spec fn is_chosen_above(xs: Seq<i64>, distance: i64, j: int) -> bool {
    &&& 0 <= j < xs.len()
    &&& spec_le(distance, xs[j])
    &&& if !spec_eq(xs[j], 0) {
        forall|k: int| 0 <= k < j && spec_le(distance, #[trigger] xs[k]) ==> spec_eq(xs[k], 0)
    } else {
        forall|k: int|
            0 <= k < xs.len() && spec_le(distance, #[trigger] xs[k]) ==> spec_eq(xs[k], 0) && k <= j
    }
}

/// The sample taken as the one past the distance is `above`: `None` when no
/// sample lies at or past the distance.
pub open spec fn above_choice(xs: Seq<i64>, distance: i64, above: Option<usize>) -> bool {
    match above {
        Some(j) => is_chosen_above(xs, distance, j as int),
        None => forall|k: int| 0 <= k < xs.len() ==> !spec_le(distance, #[trigger] xs[k]),
    }
}

/// The result of `locate_samples` on a non-empty sequence of samples.
pub open spec fn locate_outcome(xs: Seq<i64>, distance: i64, r: SampleLookup) -> bool {
    match r {
        SampleLookup::Beyond => spec_lt(xs.last(), distance),
        SampleLookup::NoSampleBelow => !spec_lt(xs.last(), distance) && forall|k: int|
            0 <= k < xs.len() ==> !spec_le(#[trigger] xs[k], distance),
        SampleLookup::Bracket { below, above } => {
            &&& !spec_lt(xs.last(), distance)
            &&& is_last_at_or_below(xs, distance, below as int)
            &&& above_choice(xs, distance, above)
        },
    }
}

/// The value of the sample taken as the one past the distance: zero when
/// there is none.
pub open spec fn value_above(xs: Seq<i64>, above: Option<usize>) -> i64 {
    match above {
        Some(j) => xs[j as int],
        None => 0,
    }
}

/// What the height reading gives once the samples around the distance are
/// located: `-1.0` past the end; the height of the lower sample when its
/// distance and that of the upper one differ by zero; otherwise the span
/// between them. Heights that are not there, and a missing upper sample
/// where one is needed, are errors.
pub open spec fn lookup_from(t: TrajectoryView, distance: i64, located: SampleLookup) -> Result<HeightLookup, QueryError> {
    match located {
        SampleLookup::Beyond => Ok(HeightLookup::Known(spec_minus_one() as i64)),
        SampleLookup::NoSampleBelow => Err(QueryError::NoSampleBelow),
        SampleLookup::Bracket { below, above } => {
            let value_below = t.x[below as int];
            if below >= t.y.len() {
                Err(QueryError::MissingHeight)
            } else if spec_difference_is_zero(value_above(t.x, above), value_below) {
                Ok(HeightLookup::Known(t.y[below as int]))
            } else {
                match above {
                    None => Err(QueryError::NoSampleAbove),
                    Some(a) => if a >= t.y.len() {
                        Err(QueryError::MissingHeight)
                    } else {
                        Ok(
                            HeightLookup::Interpolate(
                                Span {
                                    x_below: value_below,
                                    x_above: t.x[a as int],
                                    y_below: t.y[below as int],
                                    y_above: t.y[a as int],
                                    distance,
                                },
                            ),
                        )
                    },
                }
            }
        },
    }
}

/// What reading the height at `distance` from trajectory `t` gives.
pub open spec fn lookup_outcome(t: TrajectoryView, distance: i64, r: Result<HeightLookup, QueryError>) -> bool {
    if t.x.len() == 0 {
        r == Err::<HeightLookup, QueryError>(QueryError::NoSamples)
    } else {
        exists|located: SampleLookup|
            #[trigger] locate_outcome(t.x, distance, located) && r == lookup_from(t, distance, located)
    }
}

/// Finds where the distance falls among the samples `xs`: past the last one,
/// before all of them, or between the last sample at or before it and the
/// sample taken as the one past it.
pub fn locate_samples(xs: &Vec<i64>, distance: i64) -> (r: SampleLookup)
    requires
        xs.len() > 0,
    ensures
        locate_outcome(xs@, distance, r),
{
    let n = xs.len();
    if key_lt(xs[n - 1], distance) {
        return SampleLookup::Beyond;
    }
    let mut below: Option<usize> = None;
    let mut above: Option<usize> = None;
    let mut value_above: i64 = 0;
    let mut i: usize = 0;
    while i < n
        invariant
            n == xs.len(),
            0 <= i <= n,
            !spec_lt(xs@.last(), distance),
            match below {
                Some(b) => b < i && spec_le(xs@[b as int], distance) && forall|k: int|
                    b < k < i ==> !spec_le(#[trigger] xs@[k], distance),
                None => forall|k: int| 0 <= k < i ==> !spec_le(#[trigger] xs@[k], distance),
            },
            match above {
                None => value_above == 0 && forall|k: int|
                    0 <= k < i ==> !spec_le(distance, #[trigger] xs@[k]),
                Some(a) => {
                    &&& a < i
                    &&& spec_le(distance, xs@[a as int])
                    &&& value_above == xs@[a as int]
                    &&& if !spec_eq(xs@[a as int], 0) {
                        forall|k: int|
                            0 <= k < a && spec_le(distance, #[trigger] xs@[k]) ==> spec_eq(xs@[k], 0)
                    } else {
                        forall|k: int|
                            0 <= k < i && spec_le(distance, #[trigger] xs@[k]) ==> spec_eq(xs@[k], 0)
                                && k <= a
                    }
                },
            },
        decreases n - i,
    {
        let value = xs[i];
        if key_le(value, distance) {
            below = Some(i);
        }
        if key_eq(value_above, 0) && key_le(distance, value) {
            value_above = value;
            above = Some(i);
        }
        i = i + 1;
    }
    match below {
        Some(b) => SampleLookup::Bracket { below: b, above },
        None => SampleLookup::NoSampleBelow,
    }
}

proof fn lemma_below_unique(xs: Seq<i64>, distance: i64, b1: int, b2: int)
    requires
        is_last_at_or_below(xs, distance, b1),
        is_last_at_or_below(xs, distance, b2),
    ensures
        b1 == b2,
{
    if b1 < b2 {
        assert(!spec_le(xs[b2], distance));
    } else if b2 < b1 {
        assert(!spec_le(xs[b1], distance));
    }
}

proof fn lemma_above_unique(xs: Seq<i64>, distance: i64, a1: Option<usize>, a2: Option<usize>)
    requires
        above_choice(xs, distance, a1),
        above_choice(xs, distance, a2),
    ensures
        a1 == a2,
{
    match (a1, a2) {
        (Some(j1), Some(j2)) => {
            let (i1, i2) = (j1 as int, j2 as int);
            if i1 < i2 {
                assert(spec_le(distance, xs[i1]));
                if !spec_eq(xs[i2], 0) {
                    assert(spec_eq(xs[i1], 0));
                } else {
                    assert(spec_eq(xs[i1], 0) && i1 <= i2);
                    assert(spec_le(distance, xs[i2]));
                }
            } else if i2 < i1 {
                assert(spec_le(distance, xs[i2]));
                if !spec_eq(xs[i1], 0) {
                    assert(spec_eq(xs[i2], 0));
                } else {
                    assert(spec_eq(xs[i2], 0) && i2 <= i1);
                    assert(spec_le(distance, xs[i1]));
                }
            }
        },
        (Some(j1), None) => {
            assert(!spec_le(distance, xs[j1 as int]));
        },
        (None, Some(j2)) => {
            assert(!spec_le(distance, xs[j2 as int]));
        },
        (None, None) => {},
    }
}

/// The samples chosen around a distance are determined by the samples: two
/// results that both meet the contract of `locate_samples` are the same.
pub proof fn lemma_locate_is_determined(xs: Seq<i64>, distance: i64, r1: SampleLookup, r2: SampleLookup)
    requires
        xs.len() > 0,
        locate_outcome(xs, distance, r1),
        locate_outcome(xs, distance, r2),
    ensures
        r1 == r2,
{
    if let SampleLookup::Bracket { below: b1, above: a1 } = r1 {
        if let SampleLookup::Bracket { below: b2, above: a2 } = r2 {
            lemma_below_unique(xs, distance, b1 as int, b2 as int);
            lemma_above_unique(xs, distance, a1, a2);
        } else if let SampleLookup::NoSampleBelow = r2 {
            assert(spec_le(xs[b1 as int], distance));
        }
    } else if let SampleLookup::NoSampleBelow = r1 {
        if let SampleLookup::Bracket { below: b2, above: a2 } = r2 {
            assert(spec_le(xs[b2 as int], distance));
        }
    }
}

/// The height reading of a trajectory is determined by the trajectory.
pub proof fn lemma_lookup_is_determined(
    t: TrajectoryView,
    distance: i64,
    r1: Result<HeightLookup, QueryError>,
    r2: Result<HeightLookup, QueryError>,
)
    requires
        lookup_outcome(t, distance, r1),
        lookup_outcome(t, distance, r2),
    ensures
        r1 == r2,
{
    if t.x.len() > 0 {
        let l1 = choose|located: SampleLookup|
            #[trigger] locate_outcome(t.x, distance, located) && r1 == lookup_from(t, distance, located);
        let l2 = choose|located: SampleLookup|
            #[trigger] locate_outcome(t.x, distance, located) && r2 == lookup_from(t, distance, located);
        lemma_locate_is_determined(t.x, distance, l1, l2);
    }
}

/// Reads what the height at `distance` is from a trajectory: `-1.0` when the
/// shot ends before the distance, the height of the last sample at or before
/// the distance when it and the sample taken as the one past it differ by
/// zero, and otherwise the span between the two, to be interpolated.
pub fn height_lookup(result: &SimulationResult, distance: i64) -> (r: Result<HeightLookup, QueryError>)
    ensures
        lookup_outcome(result@, distance, r),
{
    let n = result.x.len();
    if n == 0 {
        return Err(QueryError::NoSamples);
    }
    let located = locate_samples(&result.x, distance);
    let ghost t = result@;
    assert(locate_outcome(t.x, distance, located));
    match located {
        SampleLookup::Beyond => Ok(HeightLookup::Known(minus_one_key())),
        SampleLookup::NoSampleBelow => Err(QueryError::NoSampleBelow),
        SampleLookup::Bracket { below, above } => {
            let value_below = result.x[below];
            let value_above = match above {
                Some(a) => result.x[a],
                None => 0,
            };
            if below >= result.y.len() {
                return Err(QueryError::MissingHeight);
            }
            if difference_is_zero(value_above, value_below) {
                return Ok(HeightLookup::Known(result.y[below]));
            }
            match above {
                None => Err(QueryError::NoSampleAbove),
                Some(a) => {
                    if a >= result.y.len() {
                        return Err(QueryError::MissingHeight);
                    }
                    Ok(
                        HeightLookup::Interpolate(
                            Span {
                                x_below: value_below,
                                x_above: value_above,
                                y_below: result.y[below],
                                y_above: result.y[a],
                                distance,
                            },
                        ),
                    )
                },
            }
        },
    }
}

/// `h` is the height that `lookup` gives, reading spans with `lerp`.
pub open spec fn height_from<L: Fn(Span) -> i64>(lookup: HeightLookup, lerp: L, h: i64) -> bool {
    match lookup {
        HeightLookup::Known(k) => h == k,
        HeightLookup::Interpolate(span) => call_ensures(lerp, (span,), h),
    }
}

/// `t` is the trajectory at `speed`: the one `sim` has stored, or else one that
/// `simulate` gives under the configuration of `sim`.
pub open spec fn trajectory_at<S: Fn(SimulationConfig, i64) -> SimulationResult>(
    sim: SimulationManager,
    simulate: S,
    speed: i64,
    t: TrajectoryView,
) -> bool {
    if sim.cache().contains_key(speed) {
        t == sim.cache()[speed]@
    } else {
        exists|r: SimulationResult| call_ensures(simulate, (sim.config(), speed), r) && r@ == t
    }
}

/// `h` is the height at `distance` read from trajectory `t`, spans read with `lerp`.
pub open spec fn height_in<L: Fn(Span) -> i64>(t: TrajectoryView, distance: i64, lerp: L, h: i64) -> bool {
    exists|lookup: HeightLookup|
        #![trigger lookup_outcome(t, distance, Ok(lookup))]
        lookup_outcome(t, distance, Ok(lookup)) && height_from(lookup, lerp, h)
}

/// What judging a shot can give: a verdict, or the error met reading its height.
#[derive(Clone, Copy, Debug, PartialEq, Eq, Structural)]
pub enum Outcome {
    Judged(DiscriminatedResult),
    Failed(QueryError),
}

/// The outcome that a judging result stands for.
pub open spec fn outcome_of(r: Result<DiscriminatedResult, QueryError>) -> Outcome {
    match r {
        Ok(verdict) => Outcome::Judged(verdict),
        Err(e) => Outcome::Failed(e),
    }
}

/// The physics and the question that a search works with: the trajectory
/// cache, the simulation, the reading between samples, the midpoint of two
/// speeds, the distance and the window.
pub struct Setting<S, L, M> {
    pub sim: SimulationManager,
    pub simulate: S,
    pub lerp: L,
    pub midpoint: M,
    pub distance: i64,
    pub min_height: i64,
    pub max_height: i64,
}

/// `outcome` is what judging the shot at `speed` can give: the verdict on a
/// height read from a trajectory at that speed, or the error met reading the
/// height from it.
pub open spec fn judged_at<
    S: Fn(SimulationConfig, i64) -> SimulationResult,
    L: Fn(Span) -> i64,
    M: Fn(i64, i64) -> i64,
>(q: Setting<S, L, M>, speed: i64, outcome: Outcome) -> bool {
    exists|t: TrajectoryView|
        #![trigger trajectory_at(q.sim, q.simulate, speed, t)]
        trajectory_at(q.sim, q.simulate, speed, t) && match outcome {
            Outcome::Judged(verdict) => exists|h: i64|
                #![trigger height_in(t, q.distance, q.lerp, h)]
                height_in(t, q.distance, q.lerp, h) && spec_discriminate(
                    h,
                    q.min_height,
                    q.max_height,
                ) == verdict,
            Outcome::Failed(e) => lookup_outcome(t, q.distance, Err(e)),
        }
}

/// One speed tried by the search: the ends it was tried between, the speed
/// that `midpoint` gave for them, and what judging its shot gave.
#[derive(Clone, Copy, Debug, PartialEq, Eq, Structural)]
pub struct Trial {
    pub low: i64,
    pub high: i64,
    pub speed: i64,
    pub outcome: Outcome,
}

/// `speed` lies strictly between `a` and `b`, in either order.
pub open spec fn spec_strictly_between(speed: i64, a: i64, b: i64) -> bool {
    (a < speed && speed < b) || (b < speed && speed < a)
}

/// `speed` lies between `a` and `b`, ends included, in either order.
pub open spec fn spec_within(speed: i64, a: i64, b: i64) -> bool {
    (a <= speed && speed <= b) || (b <= speed && speed <= a)
}

/// The distance between two ends, in keys.
pub open spec fn spec_width(a: i64, b: i64) -> int {
    if a <= b {
        b - a
    } else {
        a - b
    }
}

/// The trial happened: `midpoint` gave its speed for its ends, and judging that
/// speed gave its outcome.
pub open spec fn tried<
    S: Fn(SimulationConfig, i64) -> SimulationResult,
    L: Fn(Span) -> i64,
    M: Fn(i64, i64) -> i64,
>(q: Setting<S, L, M>, t: Trial) -> bool {
    call_ensures(q.midpoint, (t.low, t.high), t.speed) && judged_at(q, t.speed, t.outcome)
}

/// The search goes on after the trial: the shot missed the window and the
/// speed lies strictly between the ends.
pub open spec fn continues(t: Trial) -> bool {
    &&& (t.outcome == Outcome::Judged(DiscriminatedResult::High) || t.outcome == Outcome::Judged(
        DiscriminatedResult::Low,
    ))
    &&& spec_strictly_between(t.speed, t.low, t.high)
}

/// The lower end after a trial: the speed tried, when the shot fell low.
pub open spec fn next_low(t: Trial) -> i64 {
    if t.outcome == Outcome::Judged(DiscriminatedResult::High) {
        t.low
    } else {
        t.speed
    }
}

/// The upper end after a trial: the speed tried, when the shot went high.
pub open spec fn next_high(t: Trial) -> i64 {
    if t.outcome == Outcome::Judged(DiscriminatedResult::High) {
        t.speed
    } else {
        t.high
    }
}

/// Trial `i` goes on, and trial `i + 1` is tried between the ends it leaves.
pub open spec fn linked(trials: Seq<Trial>, i: int) -> bool {
    &&& continues(trials[i])
    &&& trials[i + 1].low == next_low(trials[i])
    &&& trials[i + 1].high == next_high(trials[i])
}

/// `trials` are a search started between `low` and `high`, each one tried and
/// each one but the last going on to the next.
pub open spec fn chain_from<
    S: Fn(SimulationConfig, i64) -> SimulationResult,
    L: Fn(Span) -> i64,
    M: Fn(i64, i64) -> i64,
>(q: Setting<S, L, M>, trials: Seq<Trial>, low: i64, high: i64) -> bool {
    &&& trials.len() > 0 ==> trials[0].low == low && trials[0].high == high
    &&& forall|i: int| 0 <= i < trials.len() ==> #[trigger] tried(q, trials[i])
    &&& forall|i: int| 0 <= i < trials.len() - 1 ==> #[trigger] linked(trials, i)
}

/// How the search ends at its last trial: with the speed when the shot hit,
/// stalled when it missed and the speed was not strictly between the ends,
/// with the error when the height could not be read.
pub open spec fn ends_with(t: Trial, r: Result<i64, QueryError>) -> bool {
    match t.outcome {
        Outcome::Judged(DiscriminatedResult::Hit) => r == Ok::<i64, QueryError>(t.speed),
        Outcome::Judged(_) => !spec_strictly_between(t.speed, t.low, t.high) && r == Err::<
            i64,
            QueryError,
        >(QueryError::SearchStalled),
        Outcome::Failed(e) => r == Err::<i64, QueryError>(e),
    }
}

/// The bisection between `low` and `high` ran through `trials` and gave `r`.
pub open spec fn bisection_run<
    S: Fn(SimulationConfig, i64) -> SimulationResult,
    L: Fn(Span) -> i64,
    M: Fn(i64, i64) -> i64,
>(q: Setting<S, L, M>, low: i64, high: i64, trials: Seq<Trial>, r: Result<i64, QueryError>) -> bool {
    &&& trials.len() > 0
    &&& chain_from(q, trials, low, high)
    &&& ends_with(trials.last(), r)
}

/// The bisection between `low` and `high` can give `r`, after at most one
/// trial more than the keys between the two ends.
pub open spec fn bisects_to<
    S: Fn(SimulationConfig, i64) -> SimulationResult,
    L: Fn(Span) -> i64,
    M: Fn(i64, i64) -> i64,
>(q: Setting<S, L, M>, low: i64, high: i64, r: Result<i64, QueryError>) -> bool {
    exists|trials: Seq<Trial>|
        #[trigger] bisection_run(q, low, high, trials, r) && trials.len() <= spec_width(low, high) + 1
}

/// A search chain stays a chain when a trial between the ends it leaves is added.
proof fn lemma_extend_chain<
    S: Fn(SimulationConfig, i64) -> SimulationResult,
    L: Fn(Span) -> i64,
    M: Fn(i64, i64) -> i64,
>(q: Setting<S, L, M>, done: Seq<Trial>, low0: i64, high0: i64, t: Trial)
    requires
        chain_from(q, done, low0, high0),
        done.len() == 0 ==> t.low == low0 && t.high == high0,
        done.len() > 0 ==> continues(done.last()) && next_low(done.last()) == t.low && next_high(
            done.last(),
        ) == t.high,
        tried(q, t),
    ensures
        chain_from(q, done.push(t), low0, high0),
{
    let full = done.push(t);
    assert forall|i: int| 0 <= i < full.len() implies #[trigger] tried(q, full[i]) by {
        if i < done.len() {
            assert(full[i] == done[i]);
        }
    }
    assert forall|i: int| 0 <= i < full.len() - 1 implies #[trigger] linked(full, i) by {
        if i < done.len() - 1 {
            assert(linked(done, i));
            assert(full[i] == done[i]);
            assert(full[i + 1] == done[i + 1]);
        } else {
            assert(full[i] == done.last());
            assert(full[i + 1] == t);
        }
    }
}

/// Whether `speed` lies strictly between `a` and `b`, in either order.
pub fn strictly_between(speed: i64, a: i64, b: i64) -> (r: bool)
    ensures
        r == spec_strictly_between(speed, a, b),
{
    (a < speed && speed < b) || (b < speed && speed < a)
}

/// Answers the wheel speed for a distance and keeps each answer.
pub struct SearchManager {
    results: HashMap<i64, i64>,
    sim_manager: SimulationManager,
    max_speed: i64,
}

/// What a distance query leaves behind. A distance answered before gets the
/// same answer, with nothing changed. Otherwise the shot at the top speed is
/// judged first: an error there is the result; a shot below the window gives
/// `-1.0`; else the result is that of the bisection from zero to the top
/// speed. An answer is kept for the distance and nothing else changes; a
/// failed query changes nothing.
pub open spec fn query_outcome<
    S: Fn(SimulationConfig, i64) -> SimulationResult,
    L: Fn(Span) -> i64,
    M: Fn(i64, i64) -> i64,
>(
    before: SearchManager,
    after: SearchManager,
    q: Setting<S, L, M>,
    r: Result<i64, QueryError>,
) -> bool {
    if before.answers().contains_key(q.distance) {
        r == Ok::<i64, QueryError>(before.answers()[q.distance]) && after == before
    } else {
        &&& q.sim == before.simulations()
        &&& match r {
            Ok(speed) => {
                &&& after.answers() == before.answers().insert(q.distance, speed)
                &&& after.simulations() == before.simulations()
                &&& after.top_speed() == before.top_speed()
            },
            Err(_) => after == before,
        }
        &&& decided_at_top(q, before.top_speed(), r)
    }
}

/// What follows from judging the shot at the top speed with outcome `top`:
/// its error, `-1.0` when it fell below the window, and else the result of the
/// bisection from zero to the top speed.
pub open spec fn top_leads_to<
    S: Fn(SimulationConfig, i64) -> SimulationResult,
    L: Fn(Span) -> i64,
    M: Fn(i64, i64) -> i64,
>(q: Setting<S, L, M>, top_speed: i64, top: Outcome, r: Result<i64, QueryError>) -> bool {
    match top {
        Outcome::Failed(e) => r == Err::<i64, QueryError>(e),
        Outcome::Judged(DiscriminatedResult::Low) => r == Ok::<i64, QueryError>(
            spec_minus_one() as i64,
        ),
        Outcome::Judged(_) => bisects_to(q, 0, top_speed, r),
    }
}

/// `r` follows from some outcome of judging the shot at the top speed.
pub open spec fn decided_at_top<
    S: Fn(SimulationConfig, i64) -> SimulationResult,
    L: Fn(Span) -> i64,
    M: Fn(i64, i64) -> i64,
>(q: Setting<S, L, M>, top_speed: i64, r: Result<i64, QueryError>) -> bool {
    exists|top: Outcome|
        #[trigger] judged_at(q, top_speed, top) && top_leads_to(q, top_speed, top, r)
}

impl SearchManager {
    /// The speeds answered so far, by distance.
    pub closed spec fn answers(self) -> Map<i64, i64> {
        self.results@
    }

    /// The trajectory cache consulted for shots.
    pub closed spec fn simulations(self) -> SimulationManager {
        self.sim_manager
    }

    /// The upper end of the speed search.
    pub closed spec fn top_speed(self) -> i64 {
        self.max_speed
    }

    /// The search setting of this manager with the given physics and question.
    pub open spec fn setting<S, L, M>(
        self,
        simulate: S,
        lerp: L,
        midpoint: M,
        distance: i64,
        min_height: i64,
        max_height: i64,
    ) -> Setting<S, L, M> {
        Setting {
            sim: self.simulations(),
            simulate,
            lerp,
            midpoint,
            distance,
            min_height,
            max_height,
        }
    }

    /// No answers, a fresh trajectory cache and a top speed of zero.
    pub fn new() -> (manager: SearchManager)
        ensures
            manager.answers() == Map::<i64, i64>::empty(),
            manager.simulations().cache() == Map::<i64, SimulationResult>::empty(),
            manager.simulations().config() == SimulationConfig::spec_zero(),
            manager.top_speed() == 0,
    {
        let manager = SimulationManager::new();
        SearchManager { results: HashMap::new(), sim_manager: manager, max_speed: 0 }
    }

    /// Installs `config` in the trajectory cache; when it differs from the
    /// current one as floats compare, the answers are dropped as well.
    pub fn update_config(&mut self, config: SimulationConfig)
        ensures
            spec_config_eq(config, old(self).simulations().config()) ==> *final(self) == *old(self),
            !spec_config_eq(config, old(self).simulations().config()) ==> {
                &&& final(self).simulations().config() == config
                &&& final(self).simulations().cache() == Map::<i64, SimulationResult>::empty()
                &&& final(self).answers() == Map::<i64, i64>::empty()
                &&& final(self).top_speed() == old(self).top_speed()
            },
    {
        let updated = self.sim_manager.update_config(config);
        if !updated {
            return;
        }
        self.results = HashMap::new();
    }

    /// Sets the upper end of the speed search; answers already given stay.
    pub fn update_max_speed(&mut self, max_speed: i64)
        ensures
            final(self).top_speed() == max_speed,
            final(self).answers() == old(self).answers(),
            final(self).simulations() == old(self).simulations(),
    {
        self.max_speed = max_speed;
    }

    /// Judges a height against the window `[min_height, max_height]` as floats
    /// compare.
    pub fn discriminate_height(&self, height: i64, min_height: i64, max_height: i64) -> (r:
        DiscriminatedResult)
        ensures
            r == spec_discriminate(height, min_height, max_height),
    {
        if key_lt(height, min_height) {
            return DiscriminatedResult::Low;
        }
        if key_lt(max_height, height) {
            return DiscriminatedResult::High;
        }
        DiscriminatedResult::Hit
    }

    /// The trajectory at `speed`, from the cache when it is there, simulated
    /// otherwise; nothing is stored.
    fn trajectory<S: Fn(SimulationConfig, i64) -> SimulationResult>(&self, speed: i64, simulate: &S) -> (r:
        SimulationResult)
        requires
            forall|c: SimulationConfig, s: i64| call_requires(*simulate, (c, s)),
        ensures
            trajectory_at(self.simulations(), *simulate, speed, r@),
    {
        match self.sim_manager.cached(speed) {
            Some(r) => r,
            None => {
                let config = self.sim_manager.current_config();
                let r = simulate(config, speed);
                r
            },
        }
    }

    /// The height of a trajectory at `distance`, spans read with `lerp`.
    fn get_result_height_at_distance<L: Fn(Span) -> i64>(
        &self,
        result: &SimulationResult,
        distance: i64,
        lerp: &L,
    ) -> (r: Result<i64, QueryError>)
        requires
            forall|span: Span| call_requires(*lerp, (span,)),
        ensures
            r matches Ok(h) ==> height_in(result@, distance, *lerp, h),
            r matches Err(e) ==> lookup_outcome(result@, distance, Err(e)),
    {
        match height_lookup(result, distance) {
            Ok(HeightLookup::Known(h)) => {
                assert(height_from(HeightLookup::Known(h), *lerp, h));
                assert(lookup_outcome(result@, distance, Ok(HeightLookup::Known(h))));
                assert(height_in(result@, distance, *lerp, h));
                Ok(h)
            },
            Ok(HeightLookup::Interpolate(span)) => {
                let h = lerp(span);
                assert(call_ensures(*lerp, (span,), h));
                assert(height_from(HeightLookup::Interpolate(span), *lerp, h));
                assert(lookup_outcome(result@, distance, Ok(HeightLookup::Interpolate(span))));
                assert(height_in(result@, distance, *lerp, h));
                Ok(h)
            },
            Err(e) => Err(e),
        }
    }

    /// Judges the shot at `speed`: its height at the distance against the window.
    fn get_discriminated_at_speed<
        S: Fn(SimulationConfig, i64) -> SimulationResult,
        L: Fn(Span) -> i64,
        M: Fn(i64, i64) -> i64,
    >(
        &self,
        speed: i64,
        distance: i64,
        min_height: i64,
        max_height: i64,
        simulate: &S,
        lerp: &L,
        midpoint: &M,
    ) -> (r: Result<DiscriminatedResult, QueryError>)
        requires
            forall|c: SimulationConfig, s: i64| call_requires(*simulate, (c, s)),
            forall|span: Span| call_requires(*lerp, (span,)),
        ensures
            judged_at(
                self.setting(*simulate, *lerp, *midpoint, distance, min_height, max_height),
                speed,
                outcome_of(r),
            ),
    {
        let ghost q = self.setting(*simulate, *lerp, *midpoint, distance, min_height, max_height);
        let result = self.trajectory(speed, simulate);
        assert(trajectory_at(q.sim, q.simulate, speed, result@));
        match self.get_result_height_at_distance(&result, distance, lerp) {
            Ok(height) => {
                let verdict = self.discriminate_height(height, min_height, max_height);
                assert(height_in(result@, q.distance, q.lerp, height));
                assert(spec_discriminate(height, q.min_height, q.max_height) == verdict);
                assert(judged_at(q, speed, Outcome::Judged(verdict)));
                Ok(verdict)
            },
            Err(e) => {
                assert(judged_at(q, speed, Outcome::Failed(e)));
                Err(e)
            },
        }
    }

    /// Bisects the speeds between `min_speed` and `max_speed` until one puts
    /// the shot inside the window: each round tries the speed `midpoint` gives
    /// for the current ends; a shot above the window moves the upper end down
    /// to it, one below moves the lower end up to it. A missed shot at a speed
    /// that does not lie strictly between the ends stops the search with
    /// `SearchStalled`, since the ends would not change again.
    fn bsearch_step<
        S: Fn(SimulationConfig, i64) -> SimulationResult,
        L: Fn(Span) -> i64,
        M: Fn(i64, i64) -> i64,
    >(
        &self,
        distance: i64,
        min_height: i64,
        max_height: i64,
        min_speed: i64,
        max_speed: i64,
        simulate: &S,
        lerp: &L,
        midpoint: &M,
    ) -> (r: Result<i64, QueryError>)
        requires
            forall|c: SimulationConfig, s: i64| call_requires(*simulate, (c, s)),
            forall|span: Span| call_requires(*lerp, (span,)),
            forall|a: i64, b: i64| call_requires(*midpoint, (a, b)),
        ensures
            bisects_to(
                self.setting(*simulate, *lerp, *midpoint, distance, min_height, max_height),
                min_speed,
                max_speed,
                r,
            ),
    {
        let ghost q = self.setting(*simulate, *lerp, *midpoint, distance, min_height, max_height);
        let ghost mut done: Seq<Trial> = Seq::empty();
        let mut low = min_speed;
        let mut high = max_speed;
        loop
            invariant
                forall|c: SimulationConfig, s: i64| call_requires(*simulate, (c, s)),
                forall|span: Span| call_requires(*lerp, (span,)),
                forall|a: i64, b: i64| call_requires(*midpoint, (a, b)),
                q == self.setting(*simulate, *lerp, *midpoint, distance, min_height, max_height),
                chain_from(q, done, min_speed, max_speed),
                done.len() == 0 ==> low == min_speed && high == max_speed,
                done.len() > 0 ==> continues(done.last()) && next_low(done.last()) == low
                    && next_high(done.last()) == high,
                spec_width(low, high) + done.len() <= spec_width(min_speed, max_speed),
            decreases spec_width(low, high),
        {
            let speed = midpoint(low, high);
            let judged = self.get_discriminated_at_speed(
                speed,
                distance,
                min_height,
                max_height,
                simulate,
                lerp,
                midpoint,
            );
            let ghost t = Trial { low, high, speed, outcome: outcome_of(judged) };
            proof {
                assert(tried(q, t));
                lemma_extend_chain(q, done, min_speed, max_speed, t);
            }
            let ghost full = done.push(t);
            match judged {
                Err(e) => {
                    assert(bisection_run(q, min_speed, max_speed, full, Err(e)));
                    return Err(e);
                },
                Ok(DiscriminatedResult::Hit) => {
                    assert(bisection_run(q, min_speed, max_speed, full, Ok(speed)));
                    return Ok(speed);
                },
                Ok(verdict) => {
                    if !strictly_between(speed, low, high) {
                        assert(bisection_run(
                            q,
                            min_speed,
                            max_speed,
                            full,
                            Err(QueryError::SearchStalled),
                        ));
                        return Err(QueryError::SearchStalled);
                    }
                    if verdict == DiscriminatedResult::High {
                        high = speed;
                    } else {
                        low = speed;
                    }
                    proof {
                        done = full;
                    }
                },
            }
        }
    }

    /// The wheel speed that puts a shot at `distance` inside the window
    /// `[min_height, max_height]`. An answer given before for the distance is
    /// returned as it is. Otherwise the shot at the top speed is judged: when
    /// it falls below the window the answer is `-1.0`, else the speeds between
    /// zero and the top speed are bisected. The new answer is kept. Trajectories
    /// are taken from the cache where it has them and from `simulate` otherwise,
    /// and are not stored; heights between two samples come from `lerp`, and
    /// the speed tried between two ends from `midpoint`.
    pub fn query_distance<
        S: Fn(SimulationConfig, i64) -> SimulationResult,
        L: Fn(Span) -> i64,
        M: Fn(i64, i64) -> i64,
    >(
        &mut self,
        distance: i64,
        min_height: i64,
        max_height: i64,
        simulate: &S,
        lerp: &L,
        midpoint: &M,
    ) -> (r: Result<i64, QueryError>)
        requires
            forall|c: SimulationConfig, s: i64| call_requires(*simulate, (c, s)),
            forall|span: Span| call_requires(*lerp, (span,)),
            forall|a: i64, b: i64| call_requires(*midpoint, (a, b)),
        ensures
            query_outcome(
                *old(self),
                *final(self),
                old(self).setting(*simulate, *lerp, *midpoint, distance, min_height, max_height),
                r,
            ),
    {
        match self.results.get(&distance) {
            Some(answer) => {
                return Ok(*answer);
            },
            None => {},
        }
        let ghost q = self.setting(*simulate, *lerp, *midpoint, distance, min_height, max_height);
        let top = self.max_speed;
        let judged = self.get_discriminated_at_speed(
            top,
            distance,
            min_height,
            max_height,
            simulate,
            lerp,
            midpoint,
        );
        assert(judged_at(q, top, outcome_of(judged)));
        let answer = match judged {
            Err(e) => {
                assert(top_leads_to(q, top, outcome_of(judged), Err(e)));
                assert(decided_at_top(q, top, Err(e)));
                return Err(e);
            },
            Ok(DiscriminatedResult::Low) => {
                let answer = minus_one_key();
                assert(top_leads_to(q, top, outcome_of(judged), Ok(answer)));
                assert(decided_at_top(q, top, Ok(answer)));
                answer
            },
            Ok(_) => {
                let searched = self.bsearch_step(
                    distance,
                    min_height,
                    max_height,
                    0,
                    top,
                    simulate,
                    lerp,
                    midpoint,
                );
                assert(top_leads_to(q, top, outcome_of(judged), searched));
                assert(decided_at_top(q, top, searched));
                match searched {
                    Ok(speed) => speed,
                    Err(e) => {
                        return Err(e);
                    },
                }
            },
        };
        self.results.insert(distance, answer);
        Ok(answer)
    }
}

/// Asking again for a distance that was answered gives the same answer and
/// changes nothing, whatever the window and the physics given the second time.
pub proof fn lemma_answers_are_kept<
    S: Fn(SimulationConfig, i64) -> SimulationResult,
    L: Fn(Span) -> i64,
    M: Fn(i64, i64) -> i64,
    S2: Fn(SimulationConfig, i64) -> SimulationResult,
    L2: Fn(Span) -> i64,
    M2: Fn(i64, i64) -> i64,
>(
    m0: SearchManager,
    m1: SearchManager,
    m2: SearchManager,
    q1: Setting<S, L, M>,
    q2: Setting<S2, L2, M2>,
    speed: i64,
    r2: Result<i64, QueryError>,
)
    requires
        q2.distance == q1.distance,
        query_outcome(m0, m1, q1, Ok(speed)),
        query_outcome(m1, m2, q2, r2),
    ensures
        r2 == Ok::<i64, QueryError>(speed),
        m2 == m1,
        m1.answers().contains_key(q1.distance),
        m1.answers()[q1.distance] == speed,
{
}

/// A failed query leaves the manager as it was.
pub proof fn lemma_failure_changes_nothing<
    S: Fn(SimulationConfig, i64) -> SimulationResult,
    L: Fn(Span) -> i64,
    M: Fn(i64, i64) -> i64,
>(before: SearchManager, after: SearchManager, q: Setting<S, L, M>, e: QueryError)
    requires
        query_outcome(before, after, q, Err(e)),
    ensures
        after == before,
{
}

/// When every shot at the top speed falls below the window (for instance when
/// it falls short of the distance and the window lies above `-1.0`), a new
/// distance is answered with `-1.0`, and that answer is kept.
pub proof fn lemma_unreachable_window<
    S: Fn(SimulationConfig, i64) -> SimulationResult,
    L: Fn(Span) -> i64,
    M: Fn(i64, i64) -> i64,
>(before: SearchManager, after: SearchManager, q: Setting<S, L, M>, r: Result<i64, QueryError>)
    requires
        !before.answers().contains_key(q.distance),
        query_outcome(before, after, q, r),
        forall|o: Outcome|
            #[trigger] judged_at(q, before.top_speed(), o) ==> o == Outcome::Judged(
                DiscriminatedResult::Low,
            ),
    ensures
        r == Ok::<i64, QueryError>(spec_minus_one() as i64),
        after.answers() == before.answers().insert(q.distance, spec_minus_one() as i64),
{
}

/// When the first speed tried hits the window, the search ends with it.
pub proof fn lemma_first_hit_is_the_answer<
    S: Fn(SimulationConfig, i64) -> SimulationResult,
    L: Fn(Span) -> i64,
    M: Fn(i64, i64) -> i64,
>(q: Setting<S, L, M>, low: i64, high: i64, trials: Seq<Trial>, r: Result<i64, QueryError>)
    requires
        bisection_run(q, low, high, trials, r),
        trials[0].outcome == Outcome::Judged(DiscriminatedResult::Hit),
    ensures
        trials.len() == 1,
        r == Ok::<i64, QueryError>(trials[0].speed),
{
    if trials.len() > 1 {
        assert(linked(trials, 0));
    }
}

/// Every interval of a search lies within the one it started with.
proof fn lemma_intervals_nest<
    S: Fn(SimulationConfig, i64) -> SimulationResult,
    L: Fn(Span) -> i64,
    M: Fn(i64, i64) -> i64,
>(q: Setting<S, L, M>, low: i64, high: i64, trials: Seq<Trial>, i: int)
    requires
        trials.len() > 0,
        chain_from(q, trials, low, high),
        0 <= i < trials.len(),
    ensures
        spec_within(trials[i].low, low, high),
        spec_within(trials[i].high, low, high),
    decreases i,
{
    if i > 0 {
        lemma_intervals_nest(q, low, high, trials, i - 1);
        assert(linked(trials, i - 1));
    }
}

/// When `midpoint` always gives a speed between the ends it is given, the
/// speed a search answers lies between the ends it started with.
pub proof fn lemma_answer_within_ends<
    S: Fn(SimulationConfig, i64) -> SimulationResult,
    L: Fn(Span) -> i64,
    M: Fn(i64, i64) -> i64,
>(q: Setting<S, L, M>, low: i64, high: i64, trials: Seq<Trial>, speed: i64)
    requires
        bisection_run(q, low, high, trials, Ok(speed)),
        forall|a: i64, b: i64, s: i64|
            #[trigger] call_ensures(q.midpoint, (a, b), s) ==> spec_within(s, a, b),
    ensures
        spec_within(speed, low, high),
{
    let last = trials.last();
    lemma_intervals_nest(q, low, high, trials, trials.len() - 1);
    assert(tried(q, trials[trials.len() - 1]));
    assert(call_ensures(q.midpoint, (last.low, last.high), last.speed));
}

/// When `midpoint` always gives a speed between the ends it is given, a new
/// answer is `-1.0` or a speed between zero and the top speed.
pub proof fn lemma_answer_within_search_range<
    S: Fn(SimulationConfig, i64) -> SimulationResult,
    L: Fn(Span) -> i64,
    M: Fn(i64, i64) -> i64,
>(before: SearchManager, after: SearchManager, q: Setting<S, L, M>, speed: i64)
    requires
        !before.answers().contains_key(q.distance),
        query_outcome(before, after, q, Ok(speed)),
        forall|a: i64, b: i64, s: i64|
            #[trigger] call_ensures(q.midpoint, (a, b), s) ==> spec_within(s, a, b),
    ensures
        speed == spec_minus_one() || spec_within(speed, 0, before.top_speed()),
{
    let top = choose|top: Outcome|
        #[trigger] judged_at(q, before.top_speed(), top) && top_leads_to(
            q,
            before.top_speed(),
            top,
            Ok(speed),
        );
    if let Outcome::Judged(verdict) = top {
        if verdict != DiscriminatedResult::Low {
            let trials = choose|trials: Seq<Trial>|
                #[trigger] bisection_run(q, 0, before.top_speed(), trials, Ok(speed))
                    && trials.len() <= spec_width(0, before.top_speed()) + 1;
            lemma_answer_within_ends(q, 0, before.top_speed(), trials, speed);
        }
    }
}

/// A height below the window is `Low`, one above it `High`, one inside it
/// (bounds included) `Hit`, and a NaN height `Hit`, the order being that of
/// the floats.
pub proof fn lemma_discriminate_by_order(height: i64, min_height: i64, max_height: i64)
    ensures
        spec_lt(height, min_height) ==> spec_discriminate(height, min_height, max_height)
            == DiscriminatedResult::Low,
        !spec_lt(height, min_height) && spec_lt(max_height, height) ==> spec_discriminate(
            height,
            min_height,
            max_height,
        ) == DiscriminatedResult::High,
        spec_le(min_height, height) && spec_le(height, max_height) ==> spec_discriminate(
            height,
            min_height,
            max_height,
        ) == DiscriminatedResult::Hit,
        spec_is_nan(height) ==> spec_discriminate(height, min_height, max_height)
            == DiscriminatedResult::Hit,
{
}

/// On the floats with bit patterns `h`, `lo` and `hi`: `h < lo` is `Low`,
/// `hi < h` (and not `h < lo`) is `High`, and `lo <= h <= hi` is `Hit`.
pub proof fn lemma_discriminate_on_floats(h: u32, lo: u32, hi: u32)
    ensures
        ({
            let verdict = spec_discriminate(
                spec_key_of_bits(h) as i64,
                spec_key_of_bits(lo) as i64,
                spec_key_of_bits(hi) as i64,
            );
            &&& ieee_lt(h, lo) ==> verdict == DiscriminatedResult::Low
            &&& !ieee_lt(h, lo) && ieee_lt(hi, h) ==> verdict == DiscriminatedResult::High
            &&& (ieee_lt(lo, h) || ieee_eq(lo, h)) && (ieee_lt(h, hi) || ieee_eq(h, hi)) ==> verdict
                == DiscriminatedResult::Hit
        }),
{
    lemma_key_comparisons_are_float_comparisons(h, lo);
    lemma_key_comparisons_are_float_comparisons(hi, h);
    lemma_key_comparisons_are_float_comparisons(lo, h);
    lemma_key_comparisons_are_float_comparisons(h, hi);
}

/// A height read between two samples pairs each sample's distance with its own
/// height: the lower end of the span is the last sample at or before the
/// distance, the upper end the sample taken as the one past it.
pub proof fn lemma_span_pairs_samples(t: TrajectoryView, distance: i64, span: Span, i: int, j: int)
    requires
        lookup_outcome(t, distance, Ok(HeightLookup::Interpolate(span))),
        is_last_at_or_below(t.x, distance, i),
        is_chosen_above(t.x, distance, j),
    ensures
        span.x_below == t.x[i],
        span.y_below == t.y[i],
        span.x_above == t.x[j],
        span.y_above == t.y[j],
        span.distance == distance,
{
    let located = choose|located: SampleLookup|
        #[trigger] locate_outcome(t.x, distance, located) && Ok::<HeightLookup, QueryError>(
            HeightLookup::Interpolate(span),
        ) == lookup_from(t, distance, located);
    assert(!spec_lt(t.x.last(), distance)) by {
        if spec_lt(t.x.last(), distance) {
            assert(locate_outcome(t.x, distance, SampleLookup::Beyond));
            lemma_locate_is_determined(t.x, distance, located, SampleLookup::Beyond);
        }
    }
    let wanted = SampleLookup::Bracket { below: i as usize, above: Some(j as usize) };
    assert(locate_outcome(t.x, distance, wanted));
    lemma_locate_is_determined(t.x, distance, located, wanted);
}

/// A height known from the samples is `-1.0` when the last sample lies before
/// the distance, and otherwise the height of the last sample at or before it.
pub proof fn lemma_known_height(t: TrajectoryView, distance: i64, h: i64, i: int)
    requires
        lookup_outcome(t, distance, Ok(HeightLookup::Known(h))),
    ensures
        spec_lt(t.x.last(), distance) ==> h == spec_minus_one(),
        !spec_lt(t.x.last(), distance) && is_last_at_or_below(t.x, distance, i) ==> i < t.y.len()
            && h == t.y[i],
{
    let located = choose|located: SampleLookup|
        #[trigger] locate_outcome(t.x, distance, located) && Ok::<HeightLookup, QueryError>(
            HeightLookup::Known(h),
        ) == lookup_from(t, distance, located);
    if !spec_lt(t.x.last(), distance) && is_last_at_or_below(t.x, distance, i) {
        if let SampleLookup::Bracket { below, above } = located {
            lemma_below_unique(t.x, distance, i, below as int);
        } else {
            assert(spec_le(t.x[i], distance));
        }
    }
}

/// The search ends on a trial that missed the window only when the speed tried
/// was not strictly between its ends: a missed trial strictly between its ends
/// is always followed by another one, and a stalled search stopped on such a
/// trial.
pub proof fn lemma_stall_only_when_stuck<
    S: Fn(SimulationConfig, i64) -> SimulationResult,
    L: Fn(Span) -> i64,
    M: Fn(i64, i64) -> i64,
>(q: Setting<S, L, M>, low: i64, high: i64, trials: Seq<Trial>, r: Result<i64, QueryError>)
    requires
        bisection_run(q, low, high, trials, r),
    ensures
        forall|i: int|
            0 <= i < trials.len() && (trials[i].outcome == Outcome::Judged(DiscriminatedResult::High)
                || trials[i].outcome == Outcome::Judged(DiscriminatedResult::Low))
                && spec_strictly_between(#[trigger] trials[i].speed, trials[i].low, trials[i].high)
                ==> i < trials.len() - 1,
        r == Err::<i64, QueryError>(QueryError::SearchStalled) ==> {
            let last = trials.last();
            &&& (last.outcome == Outcome::Judged(DiscriminatedResult::High) || last.outcome
                == Outcome::Judged(DiscriminatedResult::Low))
            &&& !spec_strictly_between(last.speed, last.low, last.high)
        },
        r matches Ok(speed) ==> trials.last().outcome == Outcome::Judged(DiscriminatedResult::Hit)
            && speed == trials.last().speed,
{
    let last = trials.last();
    assert(tried(q, trials[trials.len() - 1]));
    if r == Err::<i64, QueryError>(QueryError::SearchStalled) {
        if let Outcome::Failed(e) = last.outcome {
            let t = choose|t: TrajectoryView|
                #[trigger] trajectory_at(q.sim, q.simulate, last.speed, t) && lookup_outcome(
                    t,
                    q.distance,
                    Err(e),
                );
            if t.x.len() > 0 {
                let located = choose|located: SampleLookup|
                    #[trigger] locate_outcome(t.x, q.distance, located) && Err::<
                        HeightLookup,
                        QueryError,
                    >(e) == lookup_from(t, q.distance, located);
            }
        }
    }
}

} // verus!
