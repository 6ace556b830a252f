//! A cache of simulated trajectories, keyed by wheel speed and tied to one
//! configuration.
use std::collections::HashMap;
use vstd::prelude::*;
use crate::types::{spec_config_eq, SimulationConfig, SimulationResult};

verus! {

broadcast use vstd::std_specs::hash::group_hash_axioms;

/// Trajectories already simulated under the current configuration.
pub struct SimulationManager {
    results: HashMap<i64, SimulationResult>,
    sim_config: SimulationConfig,
}

/// What a speed query leaves behind: the answer `r` and the manager `after`.
/// A cached trajectory is answered as it is, with nothing changed; otherwise
/// `compute` simulates the shot under the current configuration, and the new
/// trajectory is both stored under the speed and answered.
pub open spec fn speed_query_outcome<F: FnOnce(SimulationConfig, i64) -> SimulationResult>(
    before: SimulationManager,
    after: SimulationManager,
    wheel_speed: i64,
    compute: F,
    r: SimulationResult,
) -> bool {
    if before.cache().contains_key(wheel_speed) {
        &&& r@ == before.cache()[wheel_speed]@
        &&& after == before
    } else {
        &&& after.config() == before.config()
        &&& after.cache().contains_key(wheel_speed)
        &&& after.cache() == before.cache().insert(wheel_speed, after.cache()[wheel_speed])
        &&& call_ensures(compute, (before.config(), wheel_speed), after.cache()[wheel_speed])
        &&& r@ == after.cache()[wheel_speed]@
    }
}

impl SimulationManager {
    /// The stored trajectories, by wheel speed.
    pub closed spec fn cache(self) -> Map<i64, SimulationResult> {
        self.results@
    }

    /// The configuration the stored trajectories were simulated under.
    pub closed spec fn config(self) -> SimulationConfig {
        self.sim_config
    }

    /// An empty cache under the all-zero configuration.
    pub fn new() -> (manager: SimulationManager)
        ensures
            manager.cache() == Map::<i64, SimulationResult>::empty(),
            manager.config() == SimulationConfig::spec_zero(),
    {
        SimulationManager { results: HashMap::new(), sim_config: SimulationConfig::zero() }
    }

    /// Installs `config`. Returns `false`, changing nothing, when it equals the
    /// current configuration as floats compare; otherwise installs it, empties
    /// the cache and returns `true`.
    pub fn update_config(&mut self, config: SimulationConfig) -> (updated: bool)
        ensures
            updated == !spec_config_eq(config, old(self).config()),
            !updated ==> *final(self) == *old(self),
            updated ==> final(self).config() == config && final(self).cache() == Map::<
                i64,
                SimulationResult,
            >::empty(),
    {
        if config == self.sim_config {
            return false;
        }
        self.sim_config = config;
        self.results = HashMap::new();
        true
    }

    /// Looks a trajectory up without storing anything.
    pub(crate) fn cached(&self, wheel_speed: i64) -> (found: Option<SimulationResult>)
        ensures
            match found {
                Some(r) => self.cache().contains_key(wheel_speed) && r@ == self.cache()[wheel_speed]@,
                None => !self.cache().contains_key(wheel_speed),
            },
    {
        match self.results.get(&wheel_speed) {
            Some(r) => Some(r.clone()),
            None => None,
        }
    }

    /// The configuration in force.
    pub(crate) fn current_config(&self) -> (config: SimulationConfig)
        ensures
            config == self.config(),
    {
        self.sim_config
    }

    /// The trajectory at `wheel_speed`: the stored one, or else the one that
    /// `compute` simulates under the current configuration, which is then stored.
    pub fn query_speed<F: FnOnce(SimulationConfig, i64) -> SimulationResult>(
        &mut self,
        wheel_speed: i64,
        compute: F,
    ) -> (r: SimulationResult)
        requires
            call_requires(compute, (old(self).config(), wheel_speed)),
        ensures
            speed_query_outcome(*old(self), *final(self), wheel_speed, compute, r),
    {
        match self.results.get(&wheel_speed) {
            Some(cached) => {
                return cached.clone();
            },
            None => {},
        }
        let computed = self.compute_rpm(wheel_speed, compute);
        let answer = computed.clone();
        self.results.insert(wheel_speed, computed);
        answer
    }

    /// Simulates one shot under the current configuration.
    fn compute_rpm<F: FnOnce(SimulationConfig, i64) -> SimulationResult>(
        &self,
        wheel_speed: i64,
        compute: F,
    ) -> (r: SimulationResult)
        requires
            call_requires(compute, (self.config(), wheel_speed)),
        ensures
            call_ensures(compute, (self.config(), wheel_speed), r),
    {
        compute(self.sim_config, wheel_speed)
    }
}

/// A second query at the same speed answers what the first one did and
/// changes nothing.
pub proof fn lemma_query_is_memoized<
    F: FnOnce(SimulationConfig, i64) -> SimulationResult,
    G: FnOnce(SimulationConfig, i64) -> SimulationResult,
>(
    m0: SimulationManager,
    m1: SimulationManager,
    m2: SimulationManager,
    wheel_speed: i64,
    first: F,
    second: G,
    r1: SimulationResult,
    r2: SimulationResult,
)
    requires
        speed_query_outcome(m0, m1, wheel_speed, first, r1),
        speed_query_outcome(m1, m2, wheel_speed, second, r2),
    ensures
        r2@ == r1@,
        m2 == m1,
        m1.config() == m0.config(),
{
}

/// A changed configuration leaves no trajectory of the old one behind.
pub proof fn lemma_update_clears(
    before: SimulationManager,
    after: SimulationManager,
    config: SimulationConfig,
    updated: bool,
)
    requires
        updated == !spec_config_eq(config, before.config()),
        !updated ==> after == before,
        updated ==> after.config() == config && after.cache() == Map::<i64, SimulationResult>::empty(),
    ensures
        !updated ==> spec_config_eq(after.config(), config),
        updated ==> after.config() == config,
        forall|s: i64| after.cache().contains_key(s) ==> before.cache().contains_key(s)
            && spec_config_eq(before.config(), config) && after.config() == before.config(),
{
}

} // verus!
