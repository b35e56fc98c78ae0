//! A presence-detection bridge core: normalize raw Bluetooth peripheral
//! identifiers, match them against a configured allow-list, and plan the
//! MQTT publishes ("last seen" facts) for one scan cycle.
//!
//! All radio and network I/O lives outside this crate; the functions here
//! are pure decisions over plain values, each with a verified contract.

pub mod allow_list;
pub mod cycle;
pub mod normalize;
pub mod orchestrator;
pub mod publish;
