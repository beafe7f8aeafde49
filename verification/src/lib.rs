//! Core simulation logic for a lift (elevator) building game: a time-of-day
//! driven passenger supply/demand model, a bounded-acceleration lift motion
//! controller, a floor-proximity docking state machine, and the passenger
//! stores on the floors and on board the lift.
//!
//! All continuous quantities are held in fixed-point integers: durations in
//! milliseconds, world-space positions in milli-units, velocities in
//! milli-units per second, and spawn rates as exact rationals. Randomness
//! comes from a seeded generator; every decision taken on a random draw is a
//! verified function of that draw.

pub mod timer;
pub mod game_clock;
pub mod rng;
pub mod floors;
pub mod floor_config;
pub mod spawn_rates;
pub mod spawn_manager;
pub mod lift;
pub mod proximity;
pub mod lift_store;
pub mod human_store;
pub mod transfer;
pub mod prefabs;
pub mod history_store;
pub mod world_gen;
pub mod oneshot;
pub mod layout;
