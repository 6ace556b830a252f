//! Shooter speed computation: the decision logic of a projectile-speed search.
//!
//! Every floating-point quantity of the shooter model (lengths, speeds, times,
//! coefficients) is carried here as the order key of its `f32` value (see
//! [`order_key`]); the physics that works on the floats themselves lives with
//! the caller.
pub mod order_key;
pub mod types;
pub mod simulation_manager;
pub mod search_manager;
pub mod database;
pub mod nt;
