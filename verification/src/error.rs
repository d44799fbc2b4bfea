//! The error taxonomy of a provisioning run.
//!
//! Configuration faults are fatal before any mutation. Routing-channel
//! faults keep their distinguishing tag: a transport failure is not a
//! malformed reply. Platform-call failures carry the operation they came
//! from and the raw platform code, so a failure is diagnosable without a
//! live kernel.

use vstd::prelude::*;

use crate::subnet;

verus! {

/// Which privileged operation a platform error came from.
#[derive(Copy, Clone, Debug, PartialEq, Eq, Structural)]
pub enum Operation {
    /// Taking the exclusive advisory lock on the configuration file.
    Lock,
    /// Switching the calling thread into a namespace.
    NamespaceSwitch,
    /// Creating the fresh namespace.
    NamespaceCreate,
    /// Raising, lowering or permanently dropping a capability.
    CapabilityChange,
    /// Creating a derived device.
    DeviceCreate,
    /// Moving a device into the new namespace.
    DeviceMove,
    /// Deleting a device during rollback.
    DeviceDelete,
    /// Attaching an address to a device.
    AddressAssign,
    /// Administratively activating a device.
    DeviceUp,
    /// Installing a default route.
    RouteAdd,
    /// Walking the process table.
    ProcessScan,
}

/// Why a configuration was refused, always before any mutation.
#[derive(Copy, Clone, Debug, PartialEq, Eq, Structural)]
pub enum ConfigError {
    /// The file is not owned by the trusted root account.
    Ownership,
    /// A permission bit is set on the file; none may be.
    Permissions,
    /// The line at this index is not a well-formed subnet, for this reason.
    Line(usize, subnet::Error),
}

/// A fatal provisioning error.
#[derive(Copy, Clone, Debug, PartialEq, Eq, Structural)]
pub enum Error {
    /// The configuration was refused.
    Config(ConfigError),
    /// The routing channel itself failed, with the platform code.
    Transport(i32),
    /// A reply on the routing channel could not be decoded.
    Decode,
    /// No local interface holds an address in a configured subnet, or a
    /// looked-up device has vanished.
    NotFound,
    /// A privileged platform call failed.
    Syscall(Operation, i32),
    /// The collision-avoiding draw gave up on an exhausted subnet.
    Exhausted,
    /// The process was not started with the expected capability sets.
    Deployment,
}

} // verus!
