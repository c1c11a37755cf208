//! Combat-resolution core of a real-time battle simulation: entity stats,
//! damage application, timed status effects and reference-counted snapshots.
pub mod idmap;
pub mod tags;
pub mod stats;
pub mod equipment;
pub mod effect;
pub mod damage;
pub mod entity;
pub mod timer;
pub mod snapshot;
pub mod world;
pub mod projectile;
