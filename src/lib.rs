//! An actor registry with generational keys, kind-filtered broadcast and
//! per-actor deferred queues.

pub mod key;
pub mod message;
pub mod subscription;
pub mod model;
pub mod actor;
pub mod system;
pub mod lifecycle;
pub mod timestep;
pub mod config;
