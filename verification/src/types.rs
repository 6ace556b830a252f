//! The configuration of a shot and the trajectory that a simulation yields.
use vstd::prelude::*;
use vstd::std_specs::cmp::PartialEqSpecImpl;
use crate::order_key::{key_eq, spec_eq, spec_is_nan};

verus! {

/// The parameters of a simulated shot, each quantity given by its order key.
/// Two configurations are equal when every quantity is equal as a float is
/// (so one with a NaN quantity equals no configuration) and the iteration
/// counts are equal.
#[derive(Clone, Copy, Debug)]
pub struct SimulationConfig {
    pub launch_angle: i64,
    pub launch_height: i64,
    pub drag_coefficient: i64,
    pub lift_coefficient: i64,
    pub rotation_coefficient: i64,
    pub wheel_radius: i64,
    pub ball_radius: i64,
    pub gravity: i64,
    pub ball_mass: i64,
    pub air_density: i64,
    pub simulation_time: i64,
    pub iterations: usize,
}

impl SimulationConfig {
    /// The configuration that a fresh manager starts with: every quantity zero.
    pub open spec fn spec_zero() -> SimulationConfig {
        SimulationConfig {
            launch_angle: 0,
            launch_height: 0,
            drag_coefficient: 0,
            lift_coefficient: 0,
            rotation_coefficient: 0,
            wheel_radius: 0,
            ball_radius: 0,
            gravity: 0,
            ball_mass: 0,
            air_density: 0,
            simulation_time: 0,
            iterations: 0,
        }
    }

    /// Builds the all-zero configuration.
    pub fn zero() -> (config: SimulationConfig)
        ensures
            config == SimulationConfig::spec_zero(),
    {
        SimulationConfig {
            launch_angle: 0,
            launch_height: 0,
            drag_coefficient: 0,
            lift_coefficient: 0,
            rotation_coefficient: 0,
            wheel_radius: 0,
            ball_radius: 0,
            gravity: 0,
            ball_mass: 0,
            air_density: 0,
            simulation_time: 0,
            iterations: 0,
        }
    }
}

/// Float equality of two configurations, quantity by quantity.
pub open spec fn spec_config_eq(a: SimulationConfig, b: SimulationConfig) -> bool {
    &&& spec_eq(a.launch_angle, b.launch_angle)
    &&& spec_eq(a.launch_height, b.launch_height)
    &&& spec_eq(a.drag_coefficient, b.drag_coefficient)
    &&& spec_eq(a.lift_coefficient, b.lift_coefficient)
    &&& spec_eq(a.rotation_coefficient, b.rotation_coefficient)
    &&& spec_eq(a.wheel_radius, b.wheel_radius)
    &&& spec_eq(a.ball_radius, b.ball_radius)
    &&& spec_eq(a.gravity, b.gravity)
    &&& spec_eq(a.ball_mass, b.ball_mass)
    &&& spec_eq(a.air_density, b.air_density)
    &&& spec_eq(a.simulation_time, b.simulation_time)
    &&& a.iterations == b.iterations
}

impl PartialEq for SimulationConfig {
    fn eq(&self, other: &Self) -> (r: bool) {
        key_eq(self.launch_angle, other.launch_angle) && key_eq(self.launch_height, other.launch_height)
            && key_eq(self.drag_coefficient, other.drag_coefficient) && key_eq(
            self.lift_coefficient,
            other.lift_coefficient,
        ) && key_eq(self.rotation_coefficient, other.rotation_coefficient) && key_eq(
            self.wheel_radius,
            other.wheel_radius,
        ) && key_eq(self.ball_radius, other.ball_radius) && key_eq(self.gravity, other.gravity)
            && key_eq(self.ball_mass, other.ball_mass) && key_eq(self.air_density, other.air_density)
            && key_eq(self.simulation_time, other.simulation_time) && self.iterations
            == other.iterations
    }
}

impl PartialEqSpecImpl for SimulationConfig {
    open spec fn obeys_eq_spec() -> bool {
        true
    }

    open spec fn eq_spec(&self, other: &Self) -> bool {
        spec_config_eq(*self, *other)
    }
}

/// A simulated trajectory: horizontal distances `x`, heights `y` and sample
/// times `time`, each sample given by its order key.
#[derive(Debug)]
pub struct SimulationResult {
    pub x: Vec<i64>,
    pub y: Vec<i64>,
    pub time: Vec<i64>,
}

/// The contents of a trajectory.
pub struct TrajectoryView {
    pub x: Seq<i64>,
    pub y: Seq<i64>,
    pub time: Seq<i64>,
}

impl View for SimulationResult {
    type V = TrajectoryView;

    open spec fn view(&self) -> TrajectoryView {
        TrajectoryView { x: self.x@, y: self.y@, time: self.time@ }
    }
}

impl Clone for SimulationResult {
    fn clone(&self) -> (copy: Self)
        ensures
            copy@ == self@,
    {
        let x = self.x.clone();
        let y = self.y.clone();
        let time = self.time.clone();
        assert(x@ =~= self.x@);
        assert(y@ =~= self.y@);
        assert(time@ =~= self.time@);
        SimulationResult { x, y, time }
    }
}

/// No quantity of the configuration is a NaN.
pub open spec fn config_is_nan_free(c: SimulationConfig) -> bool {
    &&& !spec_is_nan(c.launch_angle)
    &&& !spec_is_nan(c.launch_height)
    &&& !spec_is_nan(c.drag_coefficient)
    &&& !spec_is_nan(c.lift_coefficient)
    &&& !spec_is_nan(c.rotation_coefficient)
    &&& !spec_is_nan(c.wheel_radius)
    &&& !spec_is_nan(c.ball_radius)
    &&& !spec_is_nan(c.gravity)
    &&& !spec_is_nan(c.ball_mass)
    &&& !spec_is_nan(c.air_density)
    &&& !spec_is_nan(c.simulation_time)
}

/// Configurations without NaN are equal exactly when they are the same in
/// every field, and a configuration with a NaN equals none.
pub proof fn lemma_config_equality(a: SimulationConfig, b: SimulationConfig)
    ensures
        config_is_nan_free(a) ==> (spec_config_eq(a, b) <==> a == b),
        !config_is_nan_free(a) ==> !spec_config_eq(a, b),
        !config_is_nan_free(b) ==> !spec_config_eq(a, b),
{
}

} // verus!
