//! Host-side orchestration core for U2F security keys: exactly-once result
//! delivery, the live device registry fed by hotplug events, the single-flight
//! operation slot and the retry engine that drives one operation.

pub mod callback;
pub mod devicemap;
pub mod manager;
pub mod operation;
pub mod util;
