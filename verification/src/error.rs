//! The errors that end a pool's startup.

use vstd::prelude::*;

verus! {

/// The input that a configuration was refused for.
#[derive(Clone, Copy, Debug, PartialEq, Eq, Structural)]
pub enum ConfigFault {
    /// The worker count is zero or negative.
    WorkerCount,
    /// The host is not the dotted-decimal text of an IPv4 address.
    Host,
    /// The port is zero: the kernel would pick a port for each socket, and
    /// the workers would not share one pair.
    Port,
}

/// A fatal error of startup. None of them is retried, and each ends the whole
/// pool.
#[derive(Clone, Copy, Debug, PartialEq, Eq, Structural)]
pub enum PoolError {
    /// An input was invalid. Found before any thread or socket is made.
    ConfigError(ConfigFault),
    /// The host system does not offer the port-sharing option.
    UnsupportedPlatform,
    /// The socket of the worker with this index could not be bound.
    BindError { worker: usize },
}

} // verus!
