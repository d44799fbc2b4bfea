//! Provisioning library for isolated per-subnet network namespaces.
//!
//! The library holds the verified core of a privileged provisioning tool:
//! subnet arithmetic with collision-avoiding address selection, the
//! configuration checks, namespace deduplication, the in-use address scan,
//! the staged capability model, and the ordered provisioning state machine.
//! The surrounding binary performs the actual syscalls and the netlink
//! conversation and feeds their results back in as plain values.

pub mod address;
pub mod config;
pub mod error;
pub mod ip;
pub mod parse;
pub mod parse6;
pub mod privilege;
pub mod provision;
pub mod scan;
pub mod subnet;
