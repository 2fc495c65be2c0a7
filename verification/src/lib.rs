//! Bootstrap of a pool of listeners that share one address.
//!
//! A pool serves one `(host, port)` pair from several workers. Every worker is
//! an operating-system thread with an execution context and a listening socket
//! of its own; the sockets are bound to the same pair with the kernel's
//! port-sharing option, and the kernel spreads incoming connections over them.
//!
//! This crate holds the decisions of that design and proves them. It performs
//! no input or output: a driver reports what happened as an event and carries
//! out the directive that it is handed back.

pub mod address;
pub mod error;
pub mod keep_alive;
pub mod pool;
pub mod serving;
pub mod worker;
